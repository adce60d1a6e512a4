//! Module directory scans: what the boot sequence learns about each module
//! directory, and the plans for upgrading, disabling, removing and loading
//! modules that it carries out.
use crate::paths::{join, join_path, MODULEROOT};
use vstd::prelude::*;

verus! {

/// Marker file: the module is disabled.
pub const DISABLE_MARKER: &'static str = "disable";

/// Marker file: the module is to be removed at the next boot.
pub const REMOVE_MARKER: &'static str = "remove";

/// Marker file: the module was just updated.
pub const UPDATE_MARKER: &'static str = "update";

/// Name of a module's uninstall script.
pub const UNINSTALL_SH: &'static str = "uninstall.sh";

/// Name of the directory inside the module root that is not a module.
pub const CORE_DIR: &'static str = ".core";

/// What was found in a module's directory.
pub struct ModuleDirState {
    /// The directory could be opened.
    pub readable: bool,
    /// It holds the `update` marker.
    pub has_update: bool,
    /// It holds the `remove` marker.
    pub has_remove: bool,
    /// It holds the `disable` marker.
    pub has_disable: bool,
}

/// One entry of the module root, with what was found in it.
pub struct ModuleEntry {
    /// The entry's name, which is the module's id.
    pub name: String,
    /// The entry is a directory.
    pub is_dir: bool,
    /// What its directory holds (all false when it is not readable).
    pub state: ModuleDirState,
    /// It holds an `uninstall.sh`.
    pub has_uninstall: bool,
    /// Its `module.prop` declares a metamodule.
    pub declares_metamodule: bool,
}

/// The entries of the module root that are modules: directories other than
/// `.core`.
pub open spec fn is_module_dir(e: ModuleEntry) -> bool {
    e.is_dir && e.name@ != CORE_DIR@
}

/// Whether entry `e` is a module directory.
pub fn module_dir_entry(e: &ModuleEntry) -> (r: bool)
    ensures
        r == is_module_dir(*e),
{
    let core = CORE_DIR.to_owned();
    e.is_dir && !(e.name == core)
}

/// The path of file `file` inside the directory of module `name`.
pub open spec fn module_file(name: Seq<char>, file: Seq<char>) -> Seq<char> {
    join_path(join_path(MODULEROOT@, name), file)
}

/// The path of file `file` inside the directory of module `name`.
pub fn module_file_path(name: &str, file: &str) -> (r: String)
    ensures
        r@ == module_file(name@, file@),
{
    let dir = join(MODULEROOT, name);
    join(dir.as_str(), file)
}

// ---------------------------------------------------------------------------
// Walking the module root
// ---------------------------------------------------------------------------

/// The files that a walk over the module directories acts on: for each
/// module directory, in order, `file` when `wanted` holds of it; the walk
/// stops (and reports it) at a module directory that cannot be opened.
pub open spec fn walk_files(es: Seq<ModuleEntry>, file: Seq<char>, only_uninstallable: bool) -> (
    Seq<Seq<char>>,
    bool,
)
    decreases es.len(),
{
    if es.len() == 0 {
        (Seq::empty(), true)
    } else {
        let (done, ok) = walk_files(es.drop_last(), file, only_uninstallable);
        let e = es.last();
        if !ok || !is_module_dir(e) {
            (done, ok)
        } else if !e.state.readable {
            (done, false)
        } else if only_uninstallable && !e.has_uninstall {
            (done, true)
        } else {
            (done.push(module_file(e.name@, file)), true)
        }
    }
}

fn walk(entries: &Vec<ModuleEntry>, file: &str, only_uninstallable: bool) -> (r: (Vec<String>, bool))
    ensures
        (r.0.deep_view(), r.1) == walk_files(entries@, file@, only_uninstallable),
{
    let mut out: Vec<String> = Vec::new();
    let mut ok = true;
    let mut i: usize = 0;
    while i < entries.len()
        invariant
            i <= entries@.len(),
            (out.deep_view(), ok) == walk_files(entries@.take(i as int), file@, only_uninstallable),
        decreases entries.len() - i,
    {
        assert(entries@.take(i + 1).drop_last() =~= entries@.take(i as int));
        assert(entries@.take(i + 1).last() == entries@[i as int]);
        let e = &entries[i];
        if ok && module_dir_entry(e) {
            if !e.state.readable {
                ok = false;
            } else if !only_uninstallable || e.has_uninstall {
                let p = module_file_path(e.name.as_str(), file);
                let ghost before = out.deep_view();
                out.push(p);
                assert(out.deep_view() =~= before.push(p@));
            }
        }
        i = i + 1;
    }
    assert(entries@.take(entries@.len() as int) =~= entries@);
    (out, ok)
}

/// The `disable` markers to create to disable every module, given the scan
/// of the module root, and whether the walk got through every module.
pub fn disable_modules(entries: &Vec<ModuleEntry>) -> (r: (Vec<String>, bool))
    ensures
        (r.0.deep_view(), r.1) == walk_files(entries@, DISABLE_MARKER@, false),
{
    walk(entries, DISABLE_MARKER, false)
}

/// The uninstall scripts to run before the whole module root is removed,
/// and whether the walk got through every module.
pub fn remove_modules(entries: &Vec<ModuleEntry>) -> (r: (Vec<String>, bool))
    ensures
        (r.0.deep_view(), r.1) == walk_files(entries@, UNINSTALL_SH@, true),
{
    walk(entries, UNINSTALL_SH, true)
}

/// The uninstall script of module `name`.
pub fn run_uninstall_script(name: &str) -> (r: String)
    ensures
        r@ == module_file(name@, UNINSTALL_SH@),
{
    module_file_path(name, UNINSTALL_SH)
}

// ---------------------------------------------------------------------------
// Staged updates
// ---------------------------------------------------------------------------

/// One entry of the directory of staged updates.
pub struct UpgradeEntry {
    pub name: String,
    pub is_dir: bool,
    /// The installed module of the same name, if there is one.
    pub existing: Option<ModuleDirState>,
}

/// What is done for one staged update, in order: the installed module of
/// the same name is deleted when `remove_existing`; the update is moved into
/// the module root; a `disable` marker is created in it when `disable`.
pub struct UpgradeStep {
    pub name: String,
    pub remove_existing: bool,
    pub disable: bool,
}

/// The step for one staged update: an installed module that was disabled
/// passes its `disable` marker on to its update.
pub open spec fn upgrade_step(e: UpgradeEntry) -> (Seq<char>, bool, bool) {
    match e.existing {
        Some(s) => (e.name@, true, s.has_disable),
        None => (e.name@, false, false),
    }
}

/// The steps for the staged updates among `es`, and whether all of them can
/// be applied: the walk stops at an installed module that cannot be opened.
pub open spec fn upgrade_plan(es: Seq<UpgradeEntry>) -> (Seq<(Seq<char>, bool, bool)>, bool)
    decreases es.len(),
{
    if es.len() == 0 {
        (Seq::empty(), true)
    } else {
        let (done, ok) = upgrade_plan(es.drop_last());
        let e = es.last();
        if !ok || !e.is_dir {
            (done, ok)
        } else {
            match e.existing {
                Some(s) => if !s.readable {
                    (done, false)
                } else {
                    (done.push(upgrade_step(e)), true)
                },
                None => (done.push(upgrade_step(e)), true),
            }
        }
    }
}

/// The steps as plain values.
pub open spec fn steps_view(s: Seq<UpgradeStep>) -> Seq<(Seq<char>, bool, bool)> {
    s.map_values(|u: UpgradeStep| (u.name@, u.remove_existing, u.disable))
}

/// Plans the move of staged module updates into the module root, given the
/// listing of the staging directory; when the plan is complete the staging
/// directory is removed afterwards.
pub fn upgrade_modules(entries: &Vec<UpgradeEntry>) -> (r: (Vec<UpgradeStep>, bool))
    ensures
        (steps_view(r.0@), r.1) == upgrade_plan(entries@),
{
    let mut out: Vec<UpgradeStep> = Vec::new();
    let mut ok = true;
    let mut i: usize = 0;
    while i < entries.len()
        invariant
            i <= entries@.len(),
            (steps_view(out@), ok) == upgrade_plan(entries@.take(i as int)),
        decreases entries.len() - i,
    {
        assert(entries@.take(i + 1).drop_last() =~= entries@.take(i as int));
        assert(entries@.take(i + 1).last() == entries@[i as int]);
        let e = &entries[i];
        if ok && e.is_dir {
            let ghost before = out@;
            match &e.existing {
                Some(s) => {
                    if !s.readable {
                        ok = false;
                    } else {
                        out.push(
                            UpgradeStep {
                                name: e.name.clone(),
                                remove_existing: true,
                                disable: s.has_disable,
                            },
                        );
                        assert(steps_view(out@) =~= steps_view(before).push(upgrade_step(*e)));
                    }
                },
                None => {
                    out.push(UpgradeStep { name: e.name.clone(), remove_existing: false, disable: false });
                    assert(steps_view(out@) =~= steps_view(before).push(upgrade_step(*e)));
                },
            }
        }
        i = i + 1;
    }
    assert(entries@.take(entries@.len() as int) =~= entries@);
    (out, ok)
}

// ---------------------------------------------------------------------------
// Collecting the modules to load
// ---------------------------------------------------------------------------

/// What is done with one module at boot.
#[derive(PartialEq, Eq, Structural, Clone, Copy)]
pub enum ModuleAction {
    /// It is marked for removal: its uninstall script runs when it has one,
    /// then its directory is deleted.
    Remove { run_uninstall: bool },
    /// It stays: its `update` marker is cleared, and it is loaded unless it
    /// is disabled.
    Keep { disabled: bool },
}

/// One module and what is done with it.
pub struct ModuleStep {
    pub name: String,
    pub action: ModuleAction,
}

/// A module that the daemon loads.
pub struct ModuleInfo {
    pub name: String,
}

/// What is done with module `e`.
pub open spec fn module_action(e: ModuleEntry) -> ModuleAction {
    if e.state.has_remove {
        ModuleAction::Remove { run_uninstall: e.has_uninstall }
    } else {
        ModuleAction::Keep { disabled: e.state.has_disable }
    }
}

/// The steps for the module directories among `es`, in order, and whether
/// the walk got through all of them (it stops at one that cannot be opened).
pub open spec fn collect_plan(es: Seq<ModuleEntry>) -> (Seq<(Seq<char>, ModuleAction)>, bool)
    decreases es.len(),
{
    if es.len() == 0 {
        (Seq::empty(), true)
    } else {
        let (done, ok) = collect_plan(es.drop_last());
        let e = es.last();
        if !ok || !is_module_dir(e) {
            (done, ok)
        } else if !e.state.readable {
            (done, false)
        } else {
            (done.push((e.name@, module_action(e))), true)
        }
    }
}

/// The modules loaded after the given steps: those kept and not disabled.
pub open spec fn loaded_names(steps: Seq<(Seq<char>, ModuleAction)>) -> Seq<Seq<char>>
    decreases steps.len(),
{
    if steps.len() == 0 {
        Seq::empty()
    } else {
        let rest = loaded_names(steps.drop_last());
        if steps.last().1 == (ModuleAction::Keep { disabled: false }) {
            rest.push(steps.last().0)
        } else {
            rest
        }
    }
}

/// The steps as plain values.
pub open spec fn module_steps_view(s: Seq<ModuleStep>) -> Seq<(Seq<char>, ModuleAction)> {
    s.map_values(|m: ModuleStep| (m.name@, m.action))
}

/// The names of the given modules.
pub open spec fn infos_view(s: Seq<ModuleInfo>) -> Seq<Seq<char>> {
    s.map_values(|m: ModuleInfo| m.name@)
}

/// Plans the boot-time pass over the installed modules, given the scan of
/// the module root: the step for each module, and the modules to load.
pub fn collect_modules(entries: &Vec<ModuleEntry>) -> (r: (Vec<ModuleStep>, Vec<ModuleInfo>))
    ensures
        module_steps_view(r.0@) == collect_plan(entries@).0,
        infos_view(r.1@) == loaded_names(collect_plan(entries@).0),
{
    let mut steps: Vec<ModuleStep> = Vec::new();
    let mut loaded: Vec<ModuleInfo> = Vec::new();
    let mut ok = true;
    let mut i: usize = 0;
    while i < entries.len()
        invariant
            i <= entries@.len(),
            (module_steps_view(steps@), ok) == collect_plan(entries@.take(i as int)),
            infos_view(loaded@) == loaded_names(module_steps_view(steps@)),
        decreases entries.len() - i,
    {
        assert(entries@.take(i + 1).drop_last() =~= entries@.take(i as int));
        assert(entries@.take(i + 1).last() == entries@[i as int]);
        let e = &entries[i];
        if ok && module_dir_entry(e) {
            if !e.state.readable {
                ok = false;
            } else {
                let action = if e.state.has_remove {
                    ModuleAction::Remove { run_uninstall: e.has_uninstall }
                } else {
                    ModuleAction::Keep { disabled: e.state.has_disable }
                };
                let ghost before = steps@;
                let ghost before_loaded = loaded@;
                steps.push(ModuleStep { name: e.name.clone(), action });
                assert(module_steps_view(steps@) =~= module_steps_view(before).push(
                    (e.name@, module_action(*e)),
                ));
                assert(module_steps_view(steps@).drop_last() =~= module_steps_view(before));
                if !e.state.has_remove && !e.state.has_disable {
                    loaded.push(ModuleInfo { name: e.name.clone() });
                    assert(infos_view(loaded@) =~= infos_view(before_loaded).push(e.name@));
                } else {
                    assert(infos_view(loaded@) =~= infos_view(before_loaded));
                }
            }
        }
        i = i + 1;
    }
    assert(entries@.take(entries@.len() as int) =~= entries@);
    (steps, loaded)
}

/// The step at `i` is a removal that did not succeed (an outcome missing
/// from `removed` counts as not succeeded).
pub open spec fn removal_failed(steps: Seq<(Seq<char>, ModuleAction)>, removed: Seq<bool>, i: int) -> bool {
    steps[i].1 is Remove && !(i < removed.len() && removed[i])
}

/// How many steps from `i` on are carried out: the pass stops at the first
/// removal that fails.
pub open spec fn completed_steps(steps: Seq<(Seq<char>, ModuleAction)>, removed: Seq<bool>, i: nat) -> nat
    decreases steps.len() - i,
{
    if i >= steps.len() {
        steps.len()
    } else if removal_failed(steps, removed, i as int) {
        i
    } else {
        completed_steps(steps, removed, i + 1)
    }
}

/// The modules loaded after carrying out the steps, given for each step
/// whether its removal succeeded: a failed removal stops the pass, so only
/// the modules kept, and not disabled, before it are loaded.
pub fn loaded_modules(steps: &Vec<ModuleStep>, removed: &Vec<bool>) -> (r: Vec<ModuleInfo>)
    ensures
        infos_view(r@) == loaded_names(
            module_steps_view(steps@).take(completed_steps(module_steps_view(steps@), removed@, 0) as int),
        ),
{
    let ghost sv = module_steps_view(steps@);
    let mut loaded: Vec<ModuleInfo> = Vec::new();
    let mut i: usize = 0;
    assert(sv.take(0) =~= Seq::<(Seq<char>, ModuleAction)>::empty());
    while i < steps.len()
        invariant
            sv == module_steps_view(steps@),
            sv.len() == steps@.len(),
            i <= steps@.len(),
            completed_steps(sv, removed@, 0) == completed_steps(sv, removed@, i as nat),
            infos_view(loaded@) == loaded_names(sv.take(i as int)),
        decreases steps.len() - i,
    {
        assert(sv[i as int] == (steps@[i as int].name@, steps@[i as int].action));
        let failed = match steps[i].action {
            ModuleAction::Remove { .. } => !(i < removed.len() && removed[i]),
            ModuleAction::Keep { .. } => false,
        };
        if failed {
            assert(removal_failed(sv, removed@, i as int));
            return loaded;
        }
        assert(!removal_failed(sv, removed@, i as int));
        assert(sv.take(i + 1).drop_last() =~= sv.take(i as int));
        assert(sv.take(i + 1).last() == sv[i as int]);
        let ghost before = loaded@;
        match steps[i].action {
            ModuleAction::Keep { disabled } => {
                if !disabled {
                    loaded.push(ModuleInfo { name: steps[i].name.clone() });
                    assert(infos_view(loaded@) =~= infos_view(before).push(steps@[i as int].name@));
                }
            },
            ModuleAction::Remove { .. } => {},
        }
        i = i + 1;
    }
    assert(sv.take(sv.len() as int) =~= sv);
    loaded
}

/// Law: applying staged updates walks the staging directory in order. A
/// staged entry that is not a directory changes nothing; a staged directory
/// with no installed module of its name is moved in as it is; one whose
/// installed module can be opened replaces it, and comes out disabled
/// exactly when the installed module holds the `disable` marker, whatever its
/// other markers; one whose installed module cannot be opened stops the walk.
pub proof fn law_upgrade_step(es: Seq<UpgradeEntry>, e: UpgradeEntry)
    requires
        upgrade_plan(es).1,
    ensures
        !e.is_dir ==> upgrade_plan(es.push(e)) == upgrade_plan(es),
        e.is_dir && e.existing is None ==> upgrade_plan(es.push(e)) == (
            upgrade_plan(es).0.push((e.name@, false, false)),
            true,
        ),
        forall|s: ModuleDirState|
            e.is_dir && e.existing == Some(s) && s.readable ==> upgrade_plan(es.push(e)) == (
                upgrade_plan(es).0.push((e.name@, true, s.has_disable)),
                true,
            ),
        forall|s: ModuleDirState|
            e.is_dir && e.existing == Some(s) && !s.readable ==> upgrade_plan(es.push(e)) == (
                upgrade_plan(es).0,
                false,
            ),
{
    assert(es.push(e).drop_last() =~= es);
}

/// Law: once the walk over staged updates has stopped, later entries change
/// nothing.
pub proof fn law_upgrade_stops(es: Seq<UpgradeEntry>, e: UpgradeEntry)
    requires
        !upgrade_plan(es).1,
    ensures
        upgrade_plan(es.push(e)) == upgrade_plan(es),
{
    assert(es.push(e).drop_last() =~= es);
}

/// Law: the boot pass over the module root, one entry at a time. An entry
/// that is not a module directory (not a directory, or `.core`) changes
/// nothing; a module directory that cannot be opened stops the pass; a module
/// marked for removal is removed, running its `uninstall.sh` exactly when it
/// holds one, whatever its `disable` and `update` markers; any other module
/// is kept, disabled exactly when it holds the `disable` marker.
pub proof fn law_collect_step(es: Seq<ModuleEntry>, e: ModuleEntry)
    requires
        collect_plan(es).1,
    ensures
        !(e.is_dir && e.name@ != CORE_DIR@) ==> collect_plan(es.push(e)) == collect_plan(es),
        e.is_dir && e.name@ != CORE_DIR@ && !e.state.readable ==> collect_plan(es.push(e)) == (
            collect_plan(es).0,
            false,
        ),
        e.is_dir && e.name@ != CORE_DIR@ && e.state.readable && e.state.has_remove ==> collect_plan(
            es.push(e),
        ) == (
            collect_plan(es).0.push((e.name@, ModuleAction::Remove { run_uninstall: e.has_uninstall })),
            true,
        ),
        e.is_dir && e.name@ != CORE_DIR@ && e.state.readable && !e.state.has_remove ==> collect_plan(
            es.push(e),
        ) == (
            collect_plan(es).0.push((e.name@, ModuleAction::Keep { disabled: e.state.has_disable })),
            true,
        ),
{
    assert(es.push(e).drop_last() =~= es);
}

/// Law: once the boot pass has stopped, later entries change nothing.
pub proof fn law_collect_stops(es: Seq<ModuleEntry>, e: ModuleEntry)
    requires
        !collect_plan(es).1,
    ensures
        collect_plan(es.push(e)) == collect_plan(es),
{
    assert(es.push(e).drop_last() =~= es);
}

/// Law: removing all modules runs, in order, the `uninstall.sh` of every
/// module directory that holds one, whatever its `disable`, `remove` and
/// `update` markers, and disabling all modules creates a `disable` marker in
/// every module directory; entries that are not module directories change
/// nothing, and a module directory that cannot be opened stops the walk.
pub proof fn law_walk_step(es: Seq<ModuleEntry>, e: ModuleEntry)
    ensures
        walk_files(es, UNINSTALL_SH@, true).1 && !(e.is_dir && e.name@ != CORE_DIR@) ==> walk_files(
            es.push(e),
            UNINSTALL_SH@,
            true,
        ) == walk_files(es, UNINSTALL_SH@, true),
        walk_files(es, UNINSTALL_SH@, true).1 && e.is_dir && e.name@ != CORE_DIR@
            && !e.state.readable ==> walk_files(es.push(e), UNINSTALL_SH@, true) == (
            walk_files(es, UNINSTALL_SH@, true).0,
            false,
        ),
        walk_files(es, UNINSTALL_SH@, true).1 && e.is_dir && e.name@ != CORE_DIR@ && e.state.readable
            ==> walk_files(es.push(e), UNINSTALL_SH@, true) == (
            if e.has_uninstall {
                walk_files(es, UNINSTALL_SH@, true).0.push(
                    join_path(join_path(MODULEROOT@, e.name@), UNINSTALL_SH@),
                )
            } else {
                walk_files(es, UNINSTALL_SH@, true).0
            },
            true,
        ),
        walk_files(es, DISABLE_MARKER@, false).1 && e.is_dir && e.name@ != CORE_DIR@
            && e.state.readable ==> walk_files(es.push(e), DISABLE_MARKER@, false) == (
            walk_files(es, DISABLE_MARKER@, false).0.push(
                join_path(join_path(MODULEROOT@, e.name@), DISABLE_MARKER@),
            ),
            true,
        ),
        !walk_files(es, UNINSTALL_SH@, true).1 ==> walk_files(es.push(e), UNINSTALL_SH@, true)
            == walk_files(es, UNINSTALL_SH@, true),
{
    assert(es.push(e).drop_last() =~= es);
}

/// Law: every module loaded at boot is a module directory of the scan that
/// could be opened and is neither marked for removal nor disabled.
pub proof fn law_loaded_modules_are_enabled(es: Seq<ModuleEntry>, n: Seq<char>)
    requires
        loaded_names(collect_plan(es).0).contains(n),
    ensures
        exists|i: int|
            0 <= i < es.len() && (#[trigger] es[i]).name@ == n && is_module_dir(es[i])
                && es[i].state.readable && !es[i].state.has_remove && !es[i].state.has_disable,
    decreases es.len(),
{
    let d = es.drop_last();
    let (done, ok) = collect_plan(d);
    let e = es.last();
    if !ok || !is_module_dir(e) || !e.state.readable {
        law_loaded_modules_are_enabled(d, n);
        let i = choose|i: int|
            0 <= i < d.len() && (#[trigger] d[i]).name@ == n && is_module_dir(d[i])
                && d[i].state.readable && !d[i].state.has_remove && !d[i].state.has_disable;
        assert(es[i] == d[i]);
    } else {
        let x = (e.name@, module_action(e));
        assert(done.push(x).drop_last() =~= done);
        if x.1 == (ModuleAction::Keep { disabled: false }) && n == e.name@ {
            assert(es[es.len() - 1] == e);
        } else {
            assert(loaded_names(done).contains(n)) by {
                let k = choose|k: int| 0 <= k < loaded_names(done.push(x)).len() && loaded_names(
                    done.push(x),
                )[k] == n;
                if x.1 == (ModuleAction::Keep { disabled: false }) {
                    assert(k < loaded_names(done).len());
                    assert(loaded_names(done)[k] == n);
                } else {
                    assert(loaded_names(done)[k] == n);
                }
            }
            law_loaded_modules_are_enabled(d, n);
            let i = choose|i: int|
                0 <= i < d.len() && (#[trigger] d[i]).name@ == n && is_module_dir(d[i])
                    && d[i].state.readable && !d[i].state.has_remove && !d[i].state.has_disable;
            assert(es[i] == d[i]);
        }
    }
}

} // verus!
