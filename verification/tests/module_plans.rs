use magisk::modules::{
    collect_modules, disable_modules, loaded_modules, remove_modules, run_uninstall_script, upgrade_modules,
    ModuleAction, ModuleDirState, ModuleEntry, UpgradeEntry,
};

fn state(readable: bool, remove: bool, disable: bool) -> ModuleDirState {
    ModuleDirState { readable, has_update: false, has_remove: remove, has_disable: disable }
}

fn entry(name: &str, st: ModuleDirState, uninstall: bool) -> ModuleEntry {
    ModuleEntry { name: name.to_string(), is_dir: true, state: st, has_uninstall: uninstall, declares_metamodule: false }
}

#[test]
fn collect_loads_enabled_modules_only() {
    let mut file = entry("file", state(true, false, false), false);
    file.is_dir = false;
    let es = vec![
        entry("a", state(true, false, false), false),
        entry("gone", state(true, true, false), true),
        entry("off", state(true, false, true), false),
        file,
        entry(".core", state(true, false, false), false),
        entry("b", state(true, false, false), true),
    ];
    let (steps, loaded) = collect_modules(&es);
    let names: Vec<&str> = steps.iter().map(|s| s.name.as_str()).collect();
    assert_eq!(names, vec!["a", "gone", "off", "b"]);
    assert!(steps[1].action == ModuleAction::Remove { run_uninstall: true });
    assert!(steps[2].action == ModuleAction::Keep { disabled: true });
    assert!(steps[0].action == ModuleAction::Keep { disabled: false });
    let loaded: Vec<&str> = loaded.iter().map(|m| m.name.as_str()).collect();
    assert_eq!(loaded, vec!["a", "b"]);
}

#[test]
fn collect_stops_at_unreadable_module() {
    let es = vec![
        entry("a", state(true, false, false), false),
        entry("bad", state(false, false, false), false),
        entry("b", state(true, false, false), false),
    ];
    let (steps, loaded) = collect_modules(&es);
    assert_eq!(steps.len(), 1);
    assert_eq!(loaded.len(), 1);
    assert_eq!(loaded[0].name, "a");
}

#[test]
fn disable_every_module() {
    let es = vec![entry("a", state(true, false, false), false), entry(".core", state(true, false, false), false), entry("b", state(true, false, true), false)];
    let (paths, complete) = disable_modules(&es);
    assert!(complete);
    assert_eq!(paths, vec!["/data/adb/modules/a/disable".to_string(), "/data/adb/modules/b/disable".to_string()]);
    let broken = vec![entry("x", state(false, false, false), false), entry("a", state(true, false, false), false)];
    let (paths, complete) = disable_modules(&broken);
    assert!(!complete);
    assert!(paths.is_empty());
}

#[test]
fn remove_runs_uninstall_scripts() {
    let es = vec![entry("a", state(true, false, false), true), entry("b", state(true, false, false), false)];
    let (scripts, complete) = remove_modules(&es);
    assert!(complete);
    assert_eq!(scripts, vec!["/data/adb/modules/a/uninstall.sh".to_string()]);
    assert_eq!(run_uninstall_script("z"), "/data/adb/modules/z/uninstall.sh");
}

#[test]
fn upgrade_carries_disable_over() {
    let es = vec![
        UpgradeEntry { name: "new".to_string(), is_dir: true, existing: None },
        UpgradeEntry { name: "stray".to_string(), is_dir: false, existing: None },
        UpgradeEntry { name: "old_on".to_string(), is_dir: true, existing: Some(state(true, false, false)) },
        UpgradeEntry { name: "old_off".to_string(), is_dir: true, existing: Some(state(true, false, true)) },
    ];
    let (steps, complete) = upgrade_modules(&es);
    assert!(complete);
    let got: Vec<(&str, bool, bool)> = steps.iter().map(|s| (s.name.as_str(), s.remove_existing, s.disable)).collect();
    assert_eq!(got, vec![("new", false, false), ("old_on", true, false), ("old_off", true, true)]);
}

#[test]
fn upgrade_stops_at_unreadable_module() {
    let es = vec![
        UpgradeEntry { name: "bad".to_string(), is_dir: true, existing: Some(state(false, false, false)) },
        UpgradeEntry { name: "new".to_string(), is_dir: true, existing: None },
    ];
    let (steps, complete) = upgrade_modules(&es);
    assert!(!complete);
    assert!(steps.is_empty());
}

#[test]
fn failed_removal_stops_loading() {
    let es = vec![
        entry("a", state(true, false, false), false),
        entry("gone", state(true, true, false), false),
        entry("b", state(true, false, false), false),
    ];
    let (steps, _) = collect_modules(&es);
    let names = |v: Vec<magisk::modules::ModuleInfo>| v.into_iter().map(|m| m.name).collect::<Vec<_>>();
    assert_eq!(names(loaded_modules(&steps, &vec![true, true, true])), vec!["a", "b"]);
    assert_eq!(names(loaded_modules(&steps, &vec![true, false])), vec!["a"]);
    assert_eq!(names(loaded_modules(&steps, &vec![true])), vec!["a"]);
}
