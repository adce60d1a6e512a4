use magisk::config::read_config_file;
use magisk::metamodule::{
    check_install_safety, check_metamodule_for_install, check_metamodule_script,
    exec_metamodule_script, exec_metamount, exec_metauninstall_script, exec_stage_script,
    find_metamodule, get_metainstall_script, get_metamodule_id, has_metamodule, is_metamodule,
    is_metamodule_stable, load_metamodule_config_envs, metainstall_script_path,
    plan_script_launch, replaced_metamodule, staged_metainstall_path, ScriptLaunch,
};
use magisk::modules::{ModuleDirState, ModuleEntry};

fn state(readable: bool, update: bool, remove: bool, disable: bool) -> ModuleDirState {
    ModuleDirState { readable, has_update: update, has_remove: remove, has_disable: disable }
}

fn entry(name: &str, meta: bool) -> ModuleEntry {
    ModuleEntry {
        name: name.to_string(),
        is_dir: true,
        state: state(true, false, false, false),
        has_uninstall: false,
        declares_metamodule: meta,
    }
}

fn pairs(v: &[(&str, &str)]) -> Vec<(String, String)> {
    v.iter().map(|(a, b)| (a.to_string(), b.to_string())).collect()
}

#[test]
fn module_prop_declarations() {
    assert!(is_metamodule("id=x\nmetamodule=1\n"));
    assert!(is_metamodule("  metamodule=1  "));
    assert!(is_metamodule("name=y\r\nMetaModule=TRUE\r\n"));
    assert!(!is_metamodule("metamodule=0\n"));
    assert!(!is_metamodule("metamodule = 1\n"));
    assert!(!is_metamodule("metamodule=yes\n"));
    assert!(!is_metamodule(""));
}

#[test]
fn first_eligible_metamodule_is_chosen() {
    let mut disabled = entry("dis", true);
    disabled.state.has_disable = true;
    let mut removed = entry("rem", true);
    removed.state.has_remove = true;
    let mut file = entry("file", true);
    file.is_dir = false;
    let core = entry(".core", true);
    let es = vec![entry("plain", false), disabled, removed, file, core, entry("meta1", true), entry("meta2", true)];
    assert_eq!(find_metamodule(&es), Some("/data/adb/modules/meta1".to_string()));
    assert!(has_metamodule(&es));
}

#[test]
fn unreadable_module_stops_the_search() {
    let mut broken = entry("broken", false);
    broken.state.readable = false;
    let es = vec![broken, entry("meta", true)];
    assert_eq!(find_metamodule(&es), None);
    assert!(!has_metamodule(&es));
    let mut broken_after = entry("broken", false);
    broken_after.state.readable = false;
    let es2 = vec![entry("meta", true), broken_after];
    assert_eq!(find_metamodule(&es2), Some("/data/adb/modules/meta".to_string()));
}

#[test]
fn no_metamodule() {
    assert_eq!(find_metamodule(&vec![]), None);
    assert!(!has_metamodule(&vec![entry("a", false)]));
}

#[test]
fn metamodule_id_from_symlink_target() {
    assert_eq!(get_metamodule_id(Some("/data/adb/modules/meta")), Some("meta".to_string()));
    assert_eq!(get_metamodule_id(None), None);
    assert_eq!(get_metamodule_id(Some("/")), None);
}

#[test]
fn stable_means_no_markers() {
    assert!(is_metamodule_stable(&state(true, false, false, false)));
    assert!(!is_metamodule_stable(&state(false, false, false, false)));
    assert!(!is_metamodule_stable(&state(true, true, false, false)));
    assert!(!is_metamodule_stable(&state(true, false, true, false)));
    assert!(!is_metamodule_stable(&state(true, false, false, true)));
}

#[test]
fn install_safety_cases() {
    let unstable = state(true, true, false, false);
    let disabled = state(true, false, false, true);
    assert_eq!(check_install_safety(None, true, true, &unstable), Ok(()));
    assert_eq!(check_install_safety(Some("/data/adb/modules/m"), false, false, &unstable), Ok(()));
    assert_eq!(check_install_safety(Some("/data/adb/modules/m"), true, false, &state(true, false, false, false)), Ok(()));
    assert_eq!(check_install_safety(Some("/data/adb/modules/m"), true, false, &unstable), Err(false));
    assert_eq!(check_install_safety(Some("/data/adb/modules/m"), false, true, &disabled), Err(true));
    assert_eq!(check_install_safety(Some("/data/adb/modules/m"), true, true, &state(false, false, false, false)), Err(false));
}

#[test]
fn metainstall_paths() {
    assert_eq!(metainstall_script_path("/data/adb/modules/m"), "/data/adb/modules/m/metainstall.sh");
    assert_eq!(staged_metainstall_path("/data/adb/modules/m"), "/data/adb/modules_update/m/metainstall.sh");
    assert_eq!(staged_metainstall_path("/"), "/data/adb/modules_update/metainstall.sh");
}

#[test]
fn only_one_metamodule_may_be_installed() {
    let es = vec![entry("meta", true)];
    assert!(check_metamodule_for_install("id=x\n", "/data/adb/modules_update/x", &es));
    assert!(check_metamodule_for_install("metamodule=1\n", "/data/adb/modules_update/other", &es));
    assert!(check_metamodule_for_install("metamodule=1\n", "/data/adb/modules/meta", &es));
    assert!(check_metamodule_for_install("metamodule=true\n", "/data/adb/modules_update/other", &vec![entry("a", false)]));
}

#[test]
fn installing_a_metamodule_replaces_the_active_one() {
    let es = vec![entry("meta", true)];
    assert_eq!(
        replaced_metamodule("metamodule=1\n", "/data/adb/modules_update/other", &es),
        Some("/data/adb/modules/meta".to_string())
    );
    assert_eq!(replaced_metamodule("id=x\n", "/data/adb/modules_update/x", &es), None);
    assert_eq!(replaced_metamodule("metamodule=1\n", "/data/adb/modules/meta", &es), None);
    assert_eq!(replaced_metamodule("metamodule=1\n", "/data/adb/modules_update/other", &vec![entry("a", false)]), None);
}

#[test]
fn scripts_of_a_disabled_metamodule_do_not_run() {
    let ok = state(true, false, false, false);
    let disabled = state(true, false, false, true);
    assert_eq!(check_metamodule_script(Some("/m"), &ok, "service.sh", true), Some("/m/service.sh".to_string()));
    assert_eq!(check_metamodule_script(Some("/m"), &ok, "service.sh", false), None);
    assert_eq!(check_metamodule_script(Some("/m"), &disabled, "service.sh", true), None);
    assert_eq!(check_metamodule_script(None, &ok, "service.sh", true), None);
    assert_eq!(get_metainstall_script(Some("/m"), &ok, true), Some("/m/metainstall.sh".to_string()));
}

#[test]
fn script_requests() {
    let r = exec_stage_script("post-fs-data", true);
    assert_eq!(r.script, "post-fs-data.sh");
    assert!(r.block);
    assert!(r.envs.is_empty());
    let r = exec_metamodule_script("service.sh");
    assert_eq!(r.script, "service.sh");
    assert!(!r.block);
    let r = exec_metamount(Some("/data/adb/modules/meta"));
    assert_eq!(r.script, "metamount.sh");
    assert!(r.block);
    assert_eq!(r.envs, pairs(&[("MODULE_DIR", "/data/adb/modules"), ("METAMODULE_DIR", "/data/adb/modules/meta")]));
    assert_eq!(exec_metamount(None).envs, pairs(&[("MODULE_DIR", "/data/adb/modules")]));
    let r = exec_metauninstall_script("gone");
    assert_eq!(r.script, "metauninstall.sh");
    assert_eq!(r.envs, pairs(&[("MODULE_ID", "gone")]));
}

#[test]
fn launch_plans() {
    let ok = state(true, false, false, false);
    let req = exec_metamount(Some("/data/adb/modules/meta"));
    match plan_script_launch(&req, Some("/data/adb/modules/meta"), &ok, true, true) {
        ScriptLaunch::Shell { program, args, envs, block } => {
            assert_eq!(program, "/data/adb/magisk/busybox");
            assert_eq!(args, vec!["sh".to_string(), "/data/adb/modules/meta/metamount.sh".to_string()]);
            assert_eq!(
                envs,
                pairs(&[
                    ("MODULE_DIR", "/data/adb/modules"),
                    ("METAMODULE_DIR", "/data/adb/modules/meta"),
                    ("MODDIR", "/data/adb/modules/meta"),
                    ("KSU_MODULE", "meta"),
                ])
            );
            assert!(block);
        }
        _ => panic!("expected a shell launch"),
    }
    match plan_script_launch(&req, Some("/data/adb/modules/meta"), &ok, true, false) {
        ScriptLaunch::Direct { script } => assert_eq!(script, "/data/adb/modules/meta/metamount.sh"),
        _ => panic!("expected a direct launch"),
    }
    assert!(matches!(plan_script_launch(&req, Some("/data/adb/modules/meta"), &ok, false, true), ScriptLaunch::Skip));
    assert!(matches!(plan_script_launch(&req, None, &ok, true, true), ScriptLaunch::Skip));
}

#[test]
fn config_envs_of_the_metamodule() {
    let c = read_config_file("manage.kernel_umount=0\nmanage.su_compat=1\nother=x\n");
    assert_eq!(
        load_metamodule_config_envs(Some(&c)),
        pairs(&[("KSU_SU_COMPAT", "1"), ("KSU_KERNEL_UMOUNT", "0")])
    );
    let c2 = read_config_file("manage.kernel_umount=1\n");
    assert_eq!(load_metamodule_config_envs(Some(&c2)), pairs(&[("KSU_KERNEL_UMOUNT", "1")]));
    assert!(load_metamodule_config_envs(None).is_empty());
}
