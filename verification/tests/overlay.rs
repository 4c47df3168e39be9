use ksud::module::{Metadata, Module, ModuleState};
use ksud::namespace::{Namespace, NamespaceError};
use ksud::overlay::{activate, build_plan, source_path, OverlayPlan};
use ksud::package::{InstallOptions, Package, PackageEntry, UpdatePolicy};
use ksud::registry::Registry;

fn module_with(id: &str, priority: i64, state: ModuleState, skip: bool, files: &[&str]) -> Module {
    Module {
        id: id.as_bytes().to_vec(),
        metadata: Metadata {
            name: Vec::new(),
            version: Vec::new(),
            author: Vec::new(),
            description: Vec::new(),
        },
        state,
        priority,
        action: None,
        skip_mount: skip,
        files: files.iter().map(|f| f.as_bytes().to_vec()).collect(),
    }
}

fn shape(plan: &OverlayPlan) -> Vec<(String, Vec<String>)> {
    plan.entries
        .iter()
        .map(|e| {
            (
                String::from_utf8(e.target.clone()).unwrap(),
                e.modules.iter().map(|m| String::from_utf8(m.clone()).unwrap()).collect(),
            )
        })
        .collect()
}

fn zip_for(id: &str, file: &str) -> Package {
    Package {
        entries: vec![
            PackageEntry { path: b"module.prop".to_vec(), data: format!("id={}\n", id).into_bytes() },
            PackageEntry { path: file.as_bytes().to_vec(), data: id.as_bytes().to_vec() },
        ],
        reset_state: false,
    }
}

#[test]
fn the_module_with_the_higher_priority_number_wins() {
    let mut registry = Registry::new();
    let keep = UpdatePolicy::PreserveState;
    registry.install(&zip_for("a", "system/bin/foo"), InstallOptions { priority: 10, on_update: keep }).unwrap();
    registry.install(&zip_for("b", "system/bin/foo"), InstallOptions { priority: 20, on_update: keep }).unwrap();
    let plan = build_plan(&registry);
    assert_eq!(plan.on_top(b"/system/bin/foo"), Some(b"b".to_vec()));
    let steps = activate(&plan, Namespace::Private).unwrap();
    assert_eq!(steps.len(), 1);
    assert_eq!(steps[0].target, b"/system/bin/foo".to_vec());
    assert_eq!(
        steps[0].layers,
        vec![
            b"/data/adb/modules/b/system/bin/foo".to_vec(),
            b"/data/adb/modules/a/system/bin/foo".to_vec()
        ]
    );
}

#[test]
fn the_install_order_does_not_decide_who_wins() {
    let mut registry = Registry::new();
    let keep = UpdatePolicy::PreserveState;
    registry.install(&zip_for("b", "system/bin/foo"), InstallOptions { priority: 20, on_update: keep }).unwrap();
    registry.install(&zip_for("a", "system/bin/foo"), InstallOptions { priority: 10, on_update: keep }).unwrap();
    assert_eq!(build_plan(&registry).on_top(b"/system/bin/foo"), Some(b"b".to_vec()));
}

#[test]
fn only_enabled_modules_without_skip_marker_contribute() {
    let mut registry = Registry::new();
    registry.put(module_with("on", 1, ModuleState::Enabled, false, &["/system/a", "/system/b"]));
    registry.put(module_with("off", 2, ModuleState::Disabled, false, &["/system/a", "/system/off"]));
    registry.put(module_with("gone", 3, ModuleState::PendingRemoval, false, &["/system/a"]));
    registry.put(module_with("half", 4, ModuleState::Updating, false, &["/system/b"]));
    registry.put(module_with("skip", 5, ModuleState::Enabled, true, &["/system/a"]));
    registry.put(module_with("late", 6, ModuleState::Enabled, false, &["/system/b", "/system/c"]));
    let plan = build_plan(&registry);
    assert_eq!(
        shape(&plan),
        vec![
            ("/system/a".to_string(), vec!["on".to_string()]),
            ("/system/b".to_string(), vec!["on".to_string(), "late".to_string()]),
            ("/system/c".to_string(), vec!["late".to_string()]),
        ]
    );
    assert_eq!(plan.on_top(b"/system/off"), None);
    assert_eq!(plan.on_top(b"/system/a"), Some(b"on".to_vec()));
    assert_eq!(plan.find(b"/system/c"), Some(2));
}

#[test]
fn a_file_listed_twice_is_planned_once() {
    let mut registry = Registry::new();
    registry.put(module_with("m", 1, ModuleState::Enabled, false, &["/system/a", "/system/a"]));
    assert_eq!(shape(&build_plan(&registry)), vec![("/system/a".to_string(), vec!["m".to_string()])]);
}

#[test]
fn an_empty_registry_gives_an_empty_plan() {
    let plan = build_plan(&Registry::new());
    assert!(plan.entries.is_empty());
    assert_eq!(activate(&plan, Namespace::Private).unwrap().len(), 0);
}

#[test]
fn nothing_is_mounted_outside_a_private_namespace() {
    let mut registry = Registry::new();
    registry.put(module_with("m", 1, ModuleState::Enabled, false, &["/system/a"]));
    let plan = build_plan(&registry);
    assert_eq!(activate(&plan, Namespace::Inherited).unwrap_err(), NamespaceError::NotPrivate);
    assert_eq!(activate(&plan, Namespace::Joined { pid: 1 }).unwrap_err(), NamespaceError::NotPrivate);
    assert!(activate(&plan, Namespace::Private).is_ok());
}

#[test]
fn a_module_whose_mount_failed_is_skipped() {
    let mut registry = Registry::new();
    registry.put(module_with("a", 1, ModuleState::Enabled, false, &["/system/x", "/system/y"]));
    registry.put(module_with("b", 2, ModuleState::Enabled, false, &["/system/y", "/system/z"]));
    let plan = build_plan(&registry);
    let rest = plan.skip_module(b"b");
    assert_eq!(
        shape(&rest),
        vec![
            ("/system/x".to_string(), vec!["a".to_string()]),
            ("/system/y".to_string(), vec!["a".to_string()]),
        ]
    );
    assert_eq!(rest.on_top(b"/system/y"), Some(b"a".to_vec()));
    assert_eq!(shape(&plan.skip_module(b"none")), shape(&plan));
}

#[test]
fn a_source_lies_below_the_module_directory() {
    assert_eq!(source_path(b"mod", b"/system/etc/hosts"), b"/data/adb/modules/mod/system/etc/hosts".to_vec());
}

#[test]
fn noting_a_contribution_twice_changes_nothing() {
    let mut plan = OverlayPlan { entries: Vec::new() };
    plan.note(b"/system/a", b"m");
    plan.note(b"/system/a", b"m");
    plan.note(b"/system/a", b"n");
    plan.note(b"/system/a", b"m");
    assert_eq!(
        shape(&plan),
        vec![("/system/a".to_string(), vec!["m".to_string(), "n".to_string(), "m".to_string()])]
    );
}
