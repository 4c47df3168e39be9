use ksud::module::{module_dir, Metadata, Module, ModuleError, ModuleState};
use ksud::package::{
    check_id, prop_value, read_package, safe_path, InstallOptions, Package, PackageEntry,
    UpdatePolicy,
};
use ksud::registry::{action_result, Registry};

fn entry(path: &str, data: &str) -> PackageEntry {
    PackageEntry { path: path.as_bytes().to_vec(), data: data.as_bytes().to_vec() }
}

fn package_of(id: &str, files: &[&str]) -> Package {
    let props = format!("id={}\nname=Module {}\nversion=v1\nauthor=someone\ndescription=does things\n", id, id);
    let mut entries = vec![entry("module.prop", &props)];
    for f in files {
        entries.push(entry(f, "content"));
    }
    Package { entries, reset_state: false }
}

fn options(priority: i64) -> InstallOptions {
    InstallOptions { priority, on_update: UpdatePolicy::PreserveState }
}

fn states(registry: &Registry) -> Vec<(Vec<u8>, ModuleState)> {
    registry.list().iter().map(|m| (m.id.clone(), m.state)).collect()
}

fn plain_module(id: &str, priority: i64, state: ModuleState) -> Module {
    Module {
        id: id.as_bytes().to_vec(),
        metadata: Metadata {
            name: Vec::new(),
            version: Vec::new(),
            author: Vec::new(),
            description: Vec::new(),
        },
        state,
        priority,
        action: None,
        skip_mount: false,
        files: Vec::new(),
    }
}

#[test]
fn a_module_lives_in_the_directory_of_its_id() {
    assert_eq!(module_dir(b"zygisk"), b"/data/adb/modules/zygisk".to_vec());
    assert_ne!(module_dir(b"a"), module_dir(b"b"));
}

#[test]
fn an_installed_module_is_listed_enabled() {
    let mut registry = Registry::new();
    assert!(registry.list().is_empty());
    let p = package_of("alpha", &["system/bin/foo"]);
    assert_eq!(registry.install(&p, options(10)), Ok(()));
    assert_eq!(states(&registry), vec![(b"alpha".to_vec(), ModuleState::Enabled)]);
    let m = &registry.list()[0];
    assert_eq!(m.priority, 10);
    assert_eq!(m.metadata.name, b"Module alpha".to_vec());
    assert_eq!(m.metadata.version, b"v1".to_vec());
    assert_eq!(m.metadata.author, b"someone".to_vec());
    assert_eq!(m.metadata.description, b"does things".to_vec());
    assert_eq!(m.files, vec![b"/system/bin/foo".to_vec()]);
    assert_eq!(m.action, None);
    assert!(!m.skip_mount);
}

#[test]
fn a_package_declares_action_marker_and_files() {
    let p = Package {
        entries: vec![
            entry("system/", ""),
            entry("system/etc/hosts", "127.0.0.1"),
            entry("action.sh", "#!/system/bin/sh"),
            entry("module.prop", "name=No id first\nid=hosts.fix-2\nfoo\n=bar\nid=second\n"),
            entry("skip_mount", ""),
            entry("systemless/file", "x"),
            entry("system", "x"),
            entry("system/lib/libx.so", "elf"),
        ],
        reset_state: false,
    };
    let m = read_package(&p, -3).unwrap();
    assert_eq!(m.id, b"hosts.fix-2".to_vec());
    assert_eq!(m.state, ModuleState::Updating);
    assert_eq!(m.priority, -3);
    assert_eq!(m.metadata.name, b"No id first".to_vec());
    assert!(m.metadata.version.is_empty());
    assert_eq!(m.action, Some(b"/data/adb/modules/hosts.fix-2/action.sh".to_vec()));
    assert!(m.skip_mount);
    assert_eq!(m.files, vec![b"/system/etc/hosts".to_vec(), b"/system/lib/libx.so".to_vec()]);
}

#[test]
fn a_package_without_metadata_is_invalid() {
    let p = Package { entries: vec![entry("system/bin/foo", "x")], reset_state: false };
    let mut registry = Registry::new();
    assert_eq!(registry.install(&p, options(0)), Err(ModuleError::InvalidPackage));
    assert!(registry.list().is_empty());
    let empty = Package { entries: Vec::new(), reset_state: false };
    assert_eq!(registry.install(&empty, options(0)), Err(ModuleError::InvalidPackage));
}

#[test]
fn a_package_with_a_path_that_escapes_is_invalid() {
    for path in ["../evil", "system/../../etc/passwd", "/system/bin/foo", "a/..", ""] {
        let mut p = package_of("alpha", &[]);
        p.entries.push(entry(path, "x"));
        assert_eq!(read_package(&p, 0).unwrap_err(), ModuleError::InvalidPackage);
    }
    let mut fine = package_of("alpha", &[]);
    fine.entries.push(entry("system/..hidden/...", "x"));
    fine.entries.push(entry("system//bin/./foo", "x"));
    assert!(read_package(&fine, 0).is_ok());
}

#[test]
fn a_package_without_a_usable_id_is_invalid() {
    for props in ["name=x\n", "id=\n", "id=9lives\n", "id=a b\n", "id=a/b\n", "id=..\n", "ID=abc\n", " id=abc\n"] {
        let p = Package { entries: vec![entry("module.prop", props)], reset_state: false };
        assert_eq!(read_package(&p, 0).unwrap_err(), ModuleError::InvalidPackage);
    }
}

#[test]
fn paths_and_ids_are_checked_byte_by_byte() {
    assert!(safe_path(b"system/bin/foo"));
    assert!(safe_path(b"a"));
    assert!(!safe_path(b"/a"));
    assert!(!safe_path(b".."));
    assert!(!safe_path(b"a/../b"));
    assert!(safe_path(b"a/.../b"));
    assert!(check_id(b"a"));
    assert!(check_id(b"Mod_1.2-beta"));
    assert!(!check_id(b""));
    assert!(!check_id(b"_a"));
    assert!(!check_id(b"a b"));
}

#[test]
fn metadata_gives_the_value_of_the_first_line_with_the_key() {
    let data = b"id=one\nname=A=B\nempty=\nid=two\nnokey\n";
    assert_eq!(prop_value(data, b"id"), Some(b"one".to_vec()));
    assert_eq!(prop_value(data, b"name"), Some(b"A=B".to_vec()));
    assert_eq!(prop_value(data, b"empty"), Some(Vec::new()));
    assert_eq!(prop_value(data, b"nokey"), None);
    assert_eq!(prop_value(data, b"i"), None);
    assert_eq!(prop_value(data, b""), None);
    assert_eq!(prop_value(b"=v", b""), Some(b"v".to_vec()));
}

#[test]
fn modules_are_listed_by_priority() {
    let mut registry = Registry::new();
    registry.install(&package_of("c", &[]), options(30)).unwrap();
    registry.install(&package_of("a", &[]), options(10)).unwrap();
    registry.install(&package_of("b", &[]), options(20)).unwrap();
    registry.install(&package_of("b2", &[]), options(20)).unwrap();
    registry.install(&package_of("z", &[]), options(-5)).unwrap();
    let ids: Vec<Vec<u8>> = registry.list().iter().map(|m| m.id.clone()).collect();
    assert_eq!(ids, vec![b"z".to_vec(), b"a".to_vec(), b"b".to_vec(), b"b2".to_vec(), b"c".to_vec()]);
    assert_eq!(registry.find(b"b2"), Some(3));
    assert_eq!(registry.find(b"nope"), None);
}

#[test]
fn disable_then_enable_restores_the_module() {
    let mut registry = Registry::new();
    registry.install(&package_of("alpha", &["system/bin/foo"]), options(10)).unwrap();
    registry.install(&package_of("beta", &[]), options(20)).unwrap();
    let before = registry.list()[0].clone();
    assert_eq!(registry.disable(b"alpha"), Ok(()));
    assert_eq!(registry.list()[0].state, ModuleState::Disabled);
    assert_eq!(registry.list()[1].state, ModuleState::Enabled);
    assert_eq!(registry.disable(b"alpha"), Ok(()));
    assert_eq!(registry.list()[0].state, ModuleState::Disabled);
    assert_eq!(registry.enable(b"alpha"), Ok(()));
    let after = &registry.list()[0];
    assert_eq!(after.state, ModuleState::Enabled);
    assert_eq!(after.id, before.id);
    assert_eq!(after.metadata.name, before.metadata.name);
    assert_eq!(after.metadata.version, before.metadata.version);
    assert_eq!(after.metadata.author, before.metadata.author);
    assert_eq!(after.metadata.description, before.metadata.description);
    assert_eq!(after.priority, before.priority);
    assert_eq!(after.files, before.files);
}

#[test]
fn transitions_on_an_unknown_module_fail() {
    let mut registry = Registry::new();
    registry.install(&package_of("alpha", &[]), options(10)).unwrap();
    assert_eq!(registry.enable(b"ghost"), Err(ModuleError::NotFound));
    assert_eq!(registry.disable(b"ghost"), Err(ModuleError::NotFound));
    assert_eq!(registry.uninstall(b"ghost"), Err(ModuleError::NotFound));
    assert!(matches!(registry.run_action(b"ghost"), Err(ModuleError::NotFound)));
    assert_eq!(states(&registry), vec![(b"alpha".to_vec(), ModuleState::Enabled)]);
}

#[test]
fn an_uninstalled_module_is_listed_until_the_sweep() {
    let mut registry = Registry::new();
    registry.install(&package_of("a", &[]), options(10)).unwrap();
    registry.install(&package_of("b", &[]), options(20)).unwrap();
    assert_eq!(registry.uninstall(b"a"), Ok(()));
    assert_eq!(
        states(&registry),
        vec![(b"a".to_vec(), ModuleState::PendingRemoval), (b"b".to_vec(), ModuleState::Enabled)]
    );
    assert_eq!(registry.sweep(), vec![b"a".to_vec()]);
    assert_eq!(states(&registry), vec![(b"b".to_vec(), ModuleState::Enabled)]);
    assert!(registry.sweep().is_empty());
}

#[test]
fn a_module_that_awaits_removal_is_not_toggled() {
    let mut registry = Registry::new();
    registry.install(&package_of("a", &[]), options(10)).unwrap();
    registry.disable(b"a").unwrap();
    registry.uninstall(b"a").unwrap();
    assert_eq!(registry.enable(b"a"), Ok(()));
    assert_eq!(registry.list()[0].state, ModuleState::PendingRemoval);
    assert_eq!(registry.disable(b"a"), Ok(()));
    assert_eq!(registry.list()[0].state, ModuleState::PendingRemoval);
}

#[test]
fn an_update_keeps_a_disabled_module_disabled() {
    let mut registry = Registry::new();
    registry.install(&package_of("a", &["system/one"]), options(10)).unwrap();
    registry.disable(b"a").unwrap();
    registry.install(&package_of("a", &["system/two"]), options(5)).unwrap();
    assert_eq!(registry.list().len(), 1);
    assert_eq!(registry.list()[0].state, ModuleState::Disabled);
    assert_eq!(registry.list()[0].priority, 5);
    assert_eq!(registry.list()[0].files, vec![b"/system/two".to_vec()]);
}

#[test]
fn an_update_resets_the_state_where_asked() {
    let mut registry = Registry::new();
    registry.install(&package_of("a", &[]), options(10)).unwrap();
    registry.disable(b"a").unwrap();
    let reset = InstallOptions { priority: 10, on_update: UpdatePolicy::ResetToEnabled };
    registry.install(&package_of("a", &[]), reset).unwrap();
    assert_eq!(registry.list()[0].state, ModuleState::Enabled);

    registry.disable(b"a").unwrap();
    let mut asking = package_of("a", &[]);
    asking.reset_state = true;
    registry.install(&asking, options(10)).unwrap();
    assert_eq!(registry.list()[0].state, ModuleState::Enabled);

    registry.uninstall(b"a").unwrap();
    registry.install(&package_of("a", &[]), options(10)).unwrap();
    assert_eq!(registry.list()[0].state, ModuleState::Enabled);
}

#[test]
fn an_install_is_updating_until_it_is_finished() {
    let mut registry = Registry::new();
    let ticket = registry.begin_install(&package_of("a", &[]), options(10)).unwrap();
    assert_eq!(ticket.id, b"a".to_vec());
    assert_eq!(ticket.dir, b"/data/adb/modules/a".to_vec());
    assert!(!ticket.disabled);
    assert_eq!(registry.list()[0].state, ModuleState::Updating);
    assert_eq!(registry.finish_install(&ticket, true), Ok(()));
    assert_eq!(registry.list()[0].state, ModuleState::Enabled);
}

#[test]
fn an_install_that_cannot_be_unpacked_fails() {
    let mut registry = Registry::new();
    let ticket = registry.begin_install(&package_of("a", &[]), options(10)).unwrap();
    assert_eq!(registry.finish_install(&ticket, false), Err(ModuleError::IoError));
    assert_eq!(registry.list()[0].state, ModuleState::Updating);
    let mut other = Registry::new();
    assert_eq!(other.finish_install(&ticket, true), Err(ModuleError::NotFound));
    assert_eq!(other.finish_install(&ticket, false), Err(ModuleError::IoError));
}

#[test]
fn the_action_runs_in_the_module_directory() {
    let mut registry = Registry::new();
    let mut with_action = package_of("a", &[]);
    with_action.entries.push(entry("action.sh", "echo"));
    registry.install(&with_action, options(10)).unwrap();
    registry.install(&package_of("b", &[]), options(20)).unwrap();
    let request = registry.run_action(b"a").unwrap();
    assert_eq!(request.script, b"/data/adb/modules/a/action.sh".to_vec());
    assert_eq!(request.workdir, b"/data/adb/modules/a".to_vec());
    assert!(matches!(registry.run_action(b"b"), Err(ModuleError::NoAction)));
}

#[test]
fn a_failed_action_carries_its_status() {
    assert_eq!(action_result(0), Ok(()));
    assert_eq!(action_result(3), Err(ModuleError::ActionFailed { status: 3 }));
    assert_eq!(action_result(-1), Err(ModuleError::ActionFailed { status: -1 }));
}

#[test]
fn put_replaces_a_module_of_the_same_id() {
    let mut registry = Registry::new();
    registry.put(plain_module("a", 10, ModuleState::Enabled));
    registry.put(plain_module("b", 5, ModuleState::Disabled));
    registry.put(plain_module("a", 1, ModuleState::PendingRemoval));
    assert_eq!(
        states(&registry),
        vec![(b"a".to_vec(), ModuleState::PendingRemoval), (b"b".to_vec(), ModuleState::Disabled)]
    );
}
