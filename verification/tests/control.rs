use ksud::assets::{ensure_binaries, BINARY_DIR, BUSYBOX_PATH, RESETPROP_PATH};
use ksud::boot::{
    on_boot_completed, on_early_fs_ready, on_services_start, sequence, BootAction, BootRun,
    BootStep, Checkpoint,
};
use ksud::bytes::{bytes_eq, append, copy_range, ends_with, split, starts_with, Delim};
use ksud::cli::{is_root_shell, prepare, CommandGroup, LogLevel};
use ksud::grant::{
    grant, root_shell, GrantAction, GrantError, GrantOutcome, GrantRequest, GrantRun, HookAnswer,
    Stage,
};
use ksud::namespace::{
    enter_private_copy, may, record, switch_to_namespace, unshare_namespace, Namespace,
    NamespaceError, NamespaceOp,
};

fn names(texts: &[&str]) -> Vec<Vec<u8>> {
    texts.iter().map(|t| t.as_bytes().to_vec()).collect()
}

fn caller(global: bool) -> GrantRequest {
    GrantRequest { uid: 10123, pid: 4321, global }
}

#[test]
fn init_binary_and_kernel_modules_are_not_unpacked() {
    let assets = names(&["busybox", "ksuinit", "resetprop", "kernelsu.ko", ".ko", "ko", "ksuinit2", "a.ko.bak"]);
    let plan = ensure_binaries(&assets, true);
    let got: Vec<(Vec<u8>, Vec<u8>, bool)> =
        plan.iter().map(|e| (e.asset.clone(), e.target.clone(), e.ignore_if_exist)).collect();
    assert_eq!(
        got,
        vec![
            (b"busybox".to_vec(), b"/data/adb/ksu/bin/busybox".to_vec(), true),
            (b"resetprop".to_vec(), b"/data/adb/ksu/bin/resetprop".to_vec(), true),
            (b"ko".to_vec(), b"/data/adb/ksu/bin/ko".to_vec(), true),
            (b"ksuinit2".to_vec(), b"/data/adb/ksu/bin/ksuinit2".to_vec(), true),
            (b"a.ko.bak".to_vec(), b"/data/adb/ksu/bin/a.ko.bak".to_vec(), true),
        ]
    );
    assert!(ensure_binaries(&Vec::new(), false).is_empty());
    assert!(!ensure_binaries(&names(&["busybox"]), false)[0].ignore_if_exist);
}

#[test]
fn the_binaries_have_their_paths() {
    assert_eq!(BINARY_DIR, "/data/adb/ksu/bin/");
    assert_eq!(RESETPROP_PATH, format!("{}resetprop", BINARY_DIR));
    assert_eq!(BUSYBOX_PATH, format!("{}busybox", BINARY_DIR));
}

#[test]
fn the_shell_name_asks_for_a_root_shell() {
    assert!(is_root_shell(b"su"));
    assert!(is_root_shell(b"/system/bin/su"));
    assert!(!is_root_shell(b"ksud"));
    assert!(!is_root_shell(b"/bin/su"));
    assert!(!is_root_shell(b""));
}

#[test]
fn module_commands_run_in_a_private_namespace() {
    let p = prepare(CommandGroup::Module, false, false);
    assert_eq!(p.level, LogLevel::Info);
    assert_eq!(p.namespace, vec![NamespaceOp::Switch { pid: 1 }, NamespaceOp::Unshare]);
    for group in [
        CommandGroup::PostFsData,
        CommandGroup::Services,
        CommandGroup::BootCompleted,
        CommandGroup::Sepolicy,
        CommandGroup::Profile,
        CommandGroup::Debug,
    ] {
        assert!(prepare(group, false, false).namespace.is_empty());
    }
    assert_eq!(prepare(CommandGroup::Debug, true, false).level, LogLevel::Trace);
    assert_eq!(prepare(CommandGroup::Debug, false, true).level, LogLevel::Trace);
    assert_eq!(prepare(CommandGroup::Debug, true, true).level, LogLevel::Trace);
}

#[test]
fn byte_strings_compare_and_split() {
    assert!(bytes_eq(b"abc", b"abc"));
    assert!(!bytes_eq(b"abc", b"abd"));
    assert!(!bytes_eq(b"abc", b"ab"));
    assert!(ends_with(b"module.ko", b".ko"));
    assert!(!ends_with(b"ko", b".ko"));
    assert!(ends_with(b"x", b""));
    assert!(starts_with(b"system/bin", b"system/"));
    assert!(!starts_with(b"sys", b"system/"));
    assert_eq!(append(b"ab", b"cd"), b"abcd".to_vec());
    assert_eq!(copy_range(b"abcdef", 2, 4), b"cd".to_vec());
    assert_eq!(split(b"  a\tbb \n c ", Delim::Blank), names(&["a", "bb", "c"]));
    assert_eq!(split(b"a b\n\nc;d", Delim::Line), names(&["a b", "c;d"]));
    assert_eq!(split(b"a b\n\nc;d", Delim::Statement), names(&["a b", "c", "d"]));
    assert_eq!(split(b"/a//b/", Delim::Slash), names(&["a", "b"]));
    assert_eq!(split(b"k=v=w", Delim::Equals), names(&["k", "v", "w"]));
    assert!(split(b"", Delim::Blank).is_empty());
    assert!(split(b" \n ", Delim::Blank).is_empty());
}

#[test]
fn joining_comes_before_detaching() {
    assert_eq!(enter_private_copy(1), vec![NamespaceOp::Switch { pid: 1 }, NamespaceOp::Unshare]);
    let joined = record(Namespace::Inherited, NamespaceOp::Switch { pid: 1 }, true);
    assert_eq!(joined, Ok(Namespace::Joined { pid: 1 }));
    assert_eq!(record(joined.unwrap(), NamespaceOp::Unshare, true), Ok(Namespace::Private));
    assert_eq!(record(Namespace::Inherited, NamespaceOp::Unshare, true), Ok(Namespace::Private));
    assert_eq!(record(Namespace::Joined { pid: 1 }, NamespaceOp::Switch { pid: 7 }, true), Ok(Namespace::Joined { pid: 7 }));
}

#[test]
fn a_private_namespace_is_never_left() {
    assert!(!may(Namespace::Private, NamespaceOp::Switch { pid: 1 }));
    assert!(may(Namespace::Private, NamespaceOp::Unshare));
    assert!(may(Namespace::Inherited, NamespaceOp::Switch { pid: 1 }));
    assert_eq!(
        record(Namespace::Private, NamespaceOp::Switch { pid: 1 }, true),
        Err(NamespaceError::AlreadyPrivate)
    );
    assert_eq!(record(Namespace::Private, NamespaceOp::Unshare, true), Ok(Namespace::Private));
}

#[test]
fn a_refused_namespace_operation_is_an_error() {
    assert_eq!(record(Namespace::Inherited, NamespaceOp::Switch { pid: 99 }, false), Err(NamespaceError::Refused));
    assert_eq!(record(Namespace::Joined { pid: 1 }, NamespaceOp::Unshare, false), Err(NamespaceError::Refused));
}

#[test]
fn a_kernel_without_hook_leaves_the_namespace_alone() {
    let run = grant(caller(true), Namespace::Inherited, HookAnswer::NotSupported, true, HookAnswer::Allowed);
    assert_eq!(run.stage, Stage::Done { outcome: GrantOutcome::Denied { reason: GrantError::NotSupported } });
    assert_eq!(run.namespace, Namespace::Inherited);

    let mut step = GrantRun::begin(caller(true), Namespace::Inherited);
    assert_eq!(step.next(), GrantAction::Ask { uid: 10123, pid: 4321 });
    step.answered(HookAnswer::NotSupported);
    assert_eq!(
        step.next(),
        GrantAction::Finish { outcome: GrantOutcome::Denied { reason: GrantError::NotSupported } }
    );
    step.joined(true);
    step.answered(HookAnswer::Allowed);
    assert_eq!(step.namespace, Namespace::Inherited);
    assert_eq!(
        step.next(),
        GrantAction::Finish { outcome: GrantOutcome::Denied { reason: GrantError::NotSupported } }
    );
}

#[test]
fn a_denied_caller_gets_permission_denied() {
    let run = grant(caller(true), Namespace::Inherited, HookAnswer::Denied, true, HookAnswer::Allowed);
    assert_eq!(run.stage, Stage::Done { outcome: GrantOutcome::Denied { reason: GrantError::PermissionDenied } });
    assert_eq!(run.namespace, Namespace::Inherited);
    let late = grant(caller(false), Namespace::Inherited, HookAnswer::Allowed, true, HookAnswer::Denied);
    assert_eq!(late.stage, Stage::Done { outcome: GrantOutcome::Denied { reason: GrantError::PermissionDenied } });
}

#[test]
fn a_global_grant_joins_the_init_namespace_first() {
    let mut run = GrantRun::begin(caller(true), Namespace::Inherited);
    assert_eq!(run.next(), GrantAction::Ask { uid: 10123, pid: 4321 });
    run.answered(HookAnswer::Allowed);
    assert_eq!(run.next(), GrantAction::Join { pid: 1 });
    run.joined(true);
    assert_eq!(run.namespace, Namespace::Joined { pid: 1 });
    assert_eq!(run.next(), GrantAction::Escalate);
    run.answered(HookAnswer::Allowed);
    assert_eq!(run.next(), GrantAction::Finish { outcome: GrantOutcome::Granted { global: true } });
}

#[test]
fn an_isolated_grant_stays_where_the_caller_is() {
    let mut run = GrantRun::begin(caller(false), Namespace::Inherited);
    run.answered(HookAnswer::Allowed);
    assert_eq!(run.next(), GrantAction::Escalate);
    run.answered(HookAnswer::Allowed);
    assert_eq!(run.next(), GrantAction::Finish { outcome: GrantOutcome::Granted { global: false } });
    assert_eq!(run.namespace, Namespace::Inherited);
}

#[test]
fn a_failed_join_ends_the_grant() {
    let run = grant(caller(true), Namespace::Inherited, HookAnswer::Allowed, false, HookAnswer::Allowed);
    assert_eq!(run.stage, Stage::Done { outcome: GrantOutcome::Denied { reason: GrantError::NamespaceError } });
    assert_eq!(run.namespace, Namespace::Inherited);
    let private = grant(caller(true), Namespace::Private, HookAnswer::Allowed, true, HookAnswer::Allowed);
    assert_eq!(private.stage, Stage::Done { outcome: GrantOutcome::Denied { reason: GrantError::NamespaceError } });
    assert_eq!(private.namespace, Namespace::Private);
}

#[test]
fn a_root_shell_is_an_isolated_grant() {
    let run = root_shell(2000, 77, Namespace::Inherited);
    assert_eq!(run.request, GrantRequest { uid: 2000, pid: 77, global: false });
    assert_eq!(run.stage, Stage::Asking);
    assert_eq!(run.next(), GrantAction::Ask { uid: 2000, pid: 77 });
}

#[test]
fn the_early_checkpoint_sets_up_the_namespace_first() {
    assert_eq!(
        sequence(Checkpoint::EarlyFsReady),
        vec![
            BootStep::JoinInit,
            BootStep::Detach,
            BootStep::SweepModules,
            BootStep::PatchPolicy,
            BootStep::ActivateOverlay
        ]
    );
    assert!(sequence(Checkpoint::ServicesStart).is_empty());
    assert!(sequence(Checkpoint::BootCompleted).is_empty());
    let mut run = BootRun::begin(Checkpoint::EarlyFsReady);
    let mut done = Vec::new();
    let success = loop {
        match run.next() {
            BootAction::Run { step } => {
                if step == BootStep::ActivateOverlay {
                    assert_eq!(run.namespace, Namespace::Private);
                }
                done.push(step);
                run.record(true);
            }
            BootAction::Finish { success } => break success,
        }
    };
    assert!(success);
    assert_eq!(done, sequence(Checkpoint::EarlyFsReady));
    assert_eq!(BootRun::begin(Checkpoint::BootCompleted).next(), BootAction::Finish { success: true });
}

#[test]
fn a_failed_namespace_step_ends_the_checkpoint() {
    let mut run = BootRun::begin(Checkpoint::EarlyFsReady);
    run.record(true);
    assert_eq!(run.next(), BootAction::Run { step: BootStep::Detach });
    run.record(false);
    assert_eq!(run.next(), BootAction::Finish { success: false });
    assert_eq!(run.namespace, Namespace::Joined { pid: 1 });
    run.record(true);
    assert_eq!(run.next(), BootAction::Finish { success: false });
}

#[test]
fn a_failed_later_step_does_not_stop_the_checkpoint() {
    let mut run = BootRun::begin(Checkpoint::EarlyFsReady);
    run.record(true);
    run.record(true);
    assert_eq!(run.next(), BootAction::Run { step: BootStep::SweepModules });
    run.record(true);
    assert_eq!(run.next(), BootAction::Run { step: BootStep::PatchPolicy });
    run.record(false);
    assert_eq!(run.next(), BootAction::Run { step: BootStep::ActivateOverlay });
    run.record(true);
    assert_eq!(run.next(), BootAction::Finish { success: false });
}

#[test]
fn the_named_namespace_operations_follow_the_same_rules() {
    assert_eq!(switch_to_namespace(Namespace::Inherited, 1, true), Ok(Namespace::Joined { pid: 1 }));
    assert_eq!(switch_to_namespace(Namespace::Inherited, 1, false), Err(NamespaceError::Refused));
    assert_eq!(switch_to_namespace(Namespace::Private, 1, true), Err(NamespaceError::AlreadyPrivate));
    assert_eq!(unshare_namespace(Namespace::Joined { pid: 1 }, true), Ok(Namespace::Private));
    assert_eq!(unshare_namespace(Namespace::Joined { pid: 1 }, false), Err(NamespaceError::Refused));
}

#[test]
fn each_checkpoint_has_its_entry_point() {
    assert_eq!(on_early_fs_ready(), BootRun::begin(Checkpoint::EarlyFsReady));
    assert_eq!(on_early_fs_ready().next(), BootAction::Run { step: BootStep::JoinInit });
    assert_eq!(on_services_start().next(), BootAction::Finish { success: true });
    assert_eq!(on_boot_completed().checkpoint, Checkpoint::BootCompleted);
}
