//! The metamodule: recognising one, choosing the active one among the
//! installed modules, deciding whether an install may proceed, and planning
//! how its stage scripts are launched.
use crate::config::{lines_of, split_acc, ConfigStore};
use crate::paths::{file_name, join, join_path, path_file_name, MODULEROOT, MODULEUPGRADE};
use crate::modules::{is_module_dir, module_dir_entry, ModuleDirState, ModuleEntry};
use crate::text::{chars_of, concat, trim, trim_range};
use vstd::prelude::*;

verus! {

// ---------------------------------------------------------------------------
// module.prop
// ---------------------------------------------------------------------------

/// The code of `c` with ASCII upper-case letters mapped to lower case.
pub open spec fn ascii_lower(c: char) -> u32 {
    let u = c as u32;
    if 65 <= u && u <= 90 {
        (u + 32) as u32
    } else {
        u
    }
}

/// Equality of two texts up to ASCII case, as `str::eq_ignore_ascii_case`.
pub open spec fn eq_ignore_ascii_case(a: Seq<char>, b: Seq<char>) -> bool {
    &&& a.len() == b.len()
    &&& forall|i: int| 0 <= i < a.len() ==> ascii_lower(#[trigger] a[i]) == ascii_lower(b[i])
}

/// A line of `module.prop` that declares its module a metamodule: after
/// trimming it is `metamodule=1`, or `metamodule=true` in any ASCII case.
pub open spec fn marks_metamodule(line: Seq<char>) -> bool {
    ||| trim(line) == "metamodule=1"@
    ||| eq_ignore_ascii_case(trim(line), "metamodule=true"@)
}

/// Whether the text of a `module.prop` declares a metamodule.
pub open spec fn declares_metamodule(prop: Seq<char>) -> bool {
    exists|i: int| 0 <= i < lines_of(prop).len() && marks_metamodule(#[trigger] lines_of(prop)[i])
}

fn ascii_lower_code(c: char) -> (r: u32)
    ensures
        r == ascii_lower(c),
{
    let u = c as u32;
    if 65 <= u && u <= 90 {
        u + 32
    } else {
        u
    }
}

fn range_equals(cs: &Vec<char>, a: usize, b: usize, lit: &Vec<char>) -> (r: bool)
    requires
        a <= b <= cs.len(),
    ensures
        r == (cs@.subrange(a as int, b as int) == lit@),
{
    if b - a != lit.len() {
        return false;
    }
    let mut i: usize = 0;
    while i < lit.len()
        invariant
            a <= b <= cs.len(),
            b - a == lit.len(),
            i <= lit.len(),
            forall|j: int| 0 <= j < i ==> cs@[a + j] == lit@[j],
        decreases lit.len() - i,
    {
        if cs[a + i] != lit[i] {
            assert(cs@.subrange(a as int, b as int)[i as int] != lit@[i as int]);
            return false;
        }
        i = i + 1;
    }
    assert(cs@.subrange(a as int, b as int) =~= lit@);
    true
}

fn range_equals_ignore_case(cs: &Vec<char>, a: usize, b: usize, lit: &Vec<char>) -> (r: bool)
    requires
        a <= b <= cs.len(),
    ensures
        r == eq_ignore_ascii_case(cs@.subrange(a as int, b as int), lit@),
{
    let ghost s = cs@.subrange(a as int, b as int);
    if b - a != lit.len() {
        return false;
    }
    let mut i: usize = 0;
    while i < lit.len()
        invariant
            a <= b <= cs.len(),
            b - a == lit.len(),
            s == cs@.subrange(a as int, b as int),
            i <= lit.len(),
            forall|j: int| 0 <= j < i ==> ascii_lower(#[trigger] s[j]) == ascii_lower(lit@[j]),
        decreases lit.len() - i,
    {
        assert(s[i as int] == cs@[a + i]);
        if ascii_lower_code(cs[a + i]) != ascii_lower_code(lit[i]) {
            return false;
        }
        i = i + 1;
    }
    true
}

fn line_marks_metamodule(cs: &Vec<char>, lo: usize, hi: usize, one: &Vec<char>, yes: &Vec<char>) -> (r: bool)
    requires
        lo <= hi <= cs.len(),
        one@ == "metamodule=1"@,
        yes@ == "metamodule=true"@,
    ensures
        r == marks_metamodule(cs@.subrange(lo as int, hi as int)),
{
    let (a, b) = trim_range(cs, lo, hi);
    range_equals(cs, a, b, one) || range_equals_ignore_case(cs, a, b, yes)
}

/// Whether the text of a module's `module.prop` declares the module a
/// metamodule (`""` for a module without a readable `module.prop`).
pub fn is_metamodule(module_prop: &str) -> (r: bool)
    ensures
        r == declares_metamodule(module_prop@),
{
    let cs = chars_of(module_prop);
    let one = chars_of("metamodule=1");
    let yes = chars_of("metamodule=true");
    let mut start: usize = 0;
    let mut i: usize = 0;
    let ghost mut done: Seq<Seq<char>> = Seq::empty();
    assert(cs@.take(0) =~= Seq::<char>::empty());
    assert(cs@.subrange(0, 0) =~= Seq::<char>::empty());
    while i < cs.len()
        invariant
            start <= i <= cs.len(),
            cs@ == module_prop@,
            one@ == "metamodule=1"@,
            yes@ == "metamodule=true"@,
            split_acc(cs@.take(i as int)) == (done, cs@.subrange(start as int, i as int)),
            forall|j: int| 0 <= j < done.len() ==> !marks_metamodule(#[trigger] done[j]),
        decreases cs.len() - i,
    {
        assert(cs@.take(i + 1).drop_last() =~= cs@.take(i as int));
        assert(cs@.take(i + 1).last() == cs@[i as int]);
        if cs[i] == '\n' {
            let ghost line = cs@.subrange(start as int, i as int);
            if line_marks_metamodule(&cs, start, i, &one, &yes) {
                let ghost rest = split_acc(cs@.take(i + 1));
                assert(rest.0 == done.push(line));
                assert(cs@.take(i + 1).len() <= cs@.len());
                proof {
                    lemma_prefix_lines(cs@, i + 1);
                }
                assert(lines_of(module_prop@)[done.len() as int] == line);
                return true;
            }
            proof {
                done = done.push(line);
            }
            start = i + 1;
            assert(cs@.subrange(start as int, i + 1) =~= Seq::<char>::empty());
        } else {
            assert(cs@.subrange(start as int, i + 1) =~= cs@.subrange(start as int, i as int).push(
                cs@[i as int],
            ));
        }
        i = i + 1;
    }
    assert(cs@.take(cs@.len() as int) =~= cs@);
    let ghost ls = lines_of(module_prop@);
    assert(ls == done.push(cs@.subrange(start as int, cs@.len() as int)));
    let r = line_marks_metamodule(&cs, start, cs.len(), &one, &yes);
    if r {
        assert(ls[done.len() as int] == cs@.subrange(start as int, cs@.len() as int));
        assert(marks_metamodule(ls[done.len() as int]));
    }
    assert forall|j: int| 0 <= j < ls.len() implies !marks_metamodule(#[trigger] ls[j]) || r by {
        if j < done.len() {
            assert(ls[j] == done[j]);
        }
    }
    r
}

/// The closed lines of a prefix of a text are the first closed lines of the
/// whole text.
proof fn lemma_prefix_lines(t: Seq<char>, n: int)
    requires
        0 <= n <= t.len(),
    ensures
        split_acc(t.take(n)).0.len() <= lines_of(t).len(),
        forall|j: int|
            0 <= j < split_acc(t.take(n)).0.len() ==> #[trigger] lines_of(t)[j] == split_acc(
                t.take(n),
            ).0[j],
    decreases t.len() - n,
{
    if n == t.len() {
        assert(t.take(n) =~= t);
        assert forall|j: int| 0 <= j < split_acc(t).0.len() implies #[trigger] lines_of(t)[j]
            == split_acc(t).0[j] by {}
    } else {
        lemma_prefix_lines(t, n + 1);
        assert(t.take(n + 1).drop_last() =~= t.take(n));
        let a = split_acc(t.take(n));
        let b = split_acc(t.take(n + 1));
        assert forall|j: int| 0 <= j < a.0.len() implies b.0[j] == a.0[j] by {
            if t[n] == '\n' {
                assert(b.0 == a.0.push(a.1));
            }
        }
    }
}

// ---------------------------------------------------------------------------
// Choosing the active metamodule
// ---------------------------------------------------------------------------

/// A module that can be the active metamodule: a module directory not
/// marked for removal or disabled, whose `module.prop` declares a metamodule.
pub open spec fn eligible_metamodule(e: ModuleEntry) -> bool {
    is_module_dir(e) && !e.state.has_remove && !e.state.has_disable && e.declares_metamodule
}

/// The scan of the module root stops at an entry: a module directory that
/// cannot be opened (the scan fails) or an eligible metamodule (found).
pub open spec fn stops_scan(e: ModuleEntry) -> bool {
    is_module_dir(e) && (!e.state.readable || eligible_metamodule(e))
}

/// `i` is the first entry at which the scan stops.
pub open spec fn first_stop(es: Seq<ModuleEntry>, i: int) -> bool {
    &&& 0 <= i < es.len()
    &&& stops_scan(es[i])
    &&& forall|j: int| 0 <= j < i ==> !stops_scan(#[trigger] es[j])
}

/// The directory of the active metamodule among the scanned entries: the
/// first eligible metamodule, unless a module directory before it could not
/// be opened.
pub open spec fn selected_metamodule(es: Seq<ModuleEntry>) -> Option<Seq<char>> {
    if exists|i: int| first_stop(es, i) {
        let i = choose|i: int| first_stop(es, i);
        if es[i].state.readable {
            Some(join_path(MODULEROOT@, es[i].name@))
        } else {
            None
        }
    } else {
        None
    }
}

/// The directory of the active metamodule, given the scan of the module root.
pub fn find_metamodule(entries: &Vec<ModuleEntry>) -> (r: Option<String>)
    ensures
        match r {
            Some(p) => selected_metamodule(entries@) == Some(p@),
            None => selected_metamodule(entries@) is None,
        },
{
    let mut i: usize = 0;
    while i < entries.len()
        invariant
            i <= entries@.len(),
            forall|j: int| 0 <= j < i ==> !stops_scan(#[trigger] entries@[j]),
        decreases entries.len() - i,
    {
        let e = &entries[i];
        let is_mod = module_dir_entry(e);
        if is_mod && (!e.state.readable || (!e.state.has_remove && !e.state.has_disable
            && e.declares_metamodule)) {
            assert(first_stop(entries@, i as int));
            let ghost c = choose|c: int| first_stop(entries@, c);
            assert(c == i) by {
                if c < i {
                    assert(!stops_scan(entries@[c]));
                }
                if i < c {
                    assert(!stops_scan(entries@[i as int]));
                }
            }
            if e.state.readable {
                return Some(join(MODULEROOT, e.name.as_str()));
            } else {
                return None;
            }
        }
        i = i + 1;
    }
    None
}

/// Law: the active metamodule is an eligible metamodule of the scan (a
/// module directory, not marked for removal, not disabled, declaring itself
/// a metamodule), and it is the only one chosen: no eligible metamodule
/// comes before it.
pub proof fn law_selected_metamodule_is_eligible(es: Seq<ModuleEntry>, p: Seq<char>)
    requires
        selected_metamodule(es) == Some(p),
    ensures
        exists|i: int|
            0 <= i < es.len() && eligible_metamodule(#[trigger] es[i]) && es[i].state.readable
                && p == join_path(MODULEROOT@, es[i].name@) && forall|j: int|
                0 <= j < i ==> !eligible_metamodule(#[trigger] es[j]),
{
    let i = choose|i: int| first_stop(es, i);
    assert forall|j: int| 0 <= j < i implies !eligible_metamodule(#[trigger] es[j]) by {
        assert(!stops_scan(es[j]));
    }
}

/// Law: the active metamodule is the first module directory (a directory
/// other than `.core`) that can be opened, holds neither the `remove` nor the
/// `disable` marker, and declares a metamodule, whatever its `update` marker,
/// provided no module directory before it cannot be opened.
pub proof fn law_first_declared_metamodule_is_active(es: Seq<ModuleEntry>, i: int)
    requires
        0 <= i < es.len(),
        es[i].is_dir && es[i].name@ != ".core"@,
        es[i].state.readable && !es[i].state.has_remove && !es[i].state.has_disable
            && es[i].declares_metamodule,
        forall|j: int|
            0 <= j < i && (#[trigger] es[j]).is_dir && es[j].name@ != ".core"@ ==> es[j].state.readable
                && !(!es[j].state.has_remove && !es[j].state.has_disable && es[j].declares_metamodule),
    ensures
        selected_metamodule(es) == Some(join_path(MODULEROOT@, es[i].name@)),
{
    assert(crate::modules::CORE_DIR@ == ".core"@);
    assert(first_stop(es, i));
    let c = choose|c: int| first_stop(es, c);
    assert(c == i) by {
        if c < i {
            assert(!stops_scan(es[c]));
        }
        if i < c {
            assert(!stops_scan(es[i]));
        }
    }
}

/// Law: when every module directory can be opened and none of them, free of
/// the `remove` and `disable` markers, declares a metamodule, there is no
/// active metamodule.
pub proof fn law_no_declared_metamodule(es: Seq<ModuleEntry>)
    requires
        forall|j: int|
            0 <= j < es.len() && (#[trigger] es[j]).is_dir && es[j].name@ != ".core"@ ==> es[j].state.readable
                && !(!es[j].state.has_remove && !es[j].state.has_disable && es[j].declares_metamodule),
    ensures
        selected_metamodule(es) is None,
{
    assert(crate::modules::CORE_DIR@ == ".core"@);
    assert forall|i: int| !first_stop(es, i) by {
        if 0 <= i < es.len() {
            assert(!stops_scan(es[i]));
        }
    }
}

/// Whether some module is the active metamodule.
pub fn has_metamodule(entries: &Vec<ModuleEntry>) -> (r: bool)
    ensures
        r == selected_metamodule(entries@) is Some,
{
    find_metamodule(entries).is_some()
}

/// The id of the metamodule, given the target of the metamodule symlink
/// (`None` when there is no symlink): the final component of the target.
pub fn get_metamodule_id(metamodule_path: Option<&str>) -> (r: Option<String>)
    ensures
        match metamodule_path {
            None => r is None,
            Some(p) => match r {
                Some(id) => file_name(p@) == Some(id@),
                None => file_name(p@) is None,
            },
        },
{
    match metamodule_path {
        Some(p) => path_file_name(p),
        None => None,
    }
}

/// A module directory that nothing is about to change: it can be opened and
/// holds no `update`, `remove` or `disable` marker.
pub open spec fn stable(d: ModuleDirState) -> bool {
    d.readable && !d.has_update && !d.has_remove && !d.has_disable
}

/// Whether the metamodule directory is stable.
pub fn is_metamodule_stable(dir: &ModuleDirState) -> (r: bool)
    ensures
        r == stable(*dir),
{
    dir.readable && !dir.has_update && !dir.has_remove && !dir.has_disable
}

// ---------------------------------------------------------------------------
// Installing while a metamodule is active
// ---------------------------------------------------------------------------

/// The metamodule's install hook.
pub const METAINSTALL_SH: &'static str = "metainstall.sh";

/// The metamodule's mount script, run at boot.
pub const METAMOUNT_SH: &'static str = "metamount.sh";

/// The metamodule's hook run when a module is uninstalled.
pub const METAUNINSTALL_SH: &'static str = "metauninstall.sh";

/// The shell used to run metamodule scripts.
pub const BUSYBOX: &'static str = "/data/adb/magisk/busybox";

/// Where the metamodule at `p` keeps its install hook.
pub fn metainstall_script_path(p: &str) -> (r: String)
    ensures
        r@ == join_path(p@, METAINSTALL_SH@),
{
    join(p, METAINSTALL_SH)
}

/// The id of the module at `p`, or the empty text when `p` has no final
/// component.
pub open spec fn id_or_empty(p: Seq<char>) -> Seq<char> {
    match file_name(p) {
        Some(n) => n,
        None => Seq::empty(),
    }
}

/// Where a staged update of the metamodule at `p` keeps its install hook.
pub fn staged_metainstall_path(p: &str) -> (r: String)
    ensures
        r@ == join_path(join_path(MODULEUPGRADE@, id_or_empty(p@)), METAINSTALL_SH@),
{
    let id = match path_file_name(p) {
        Some(n) => n,
        None => String::new(),
    };
    let dir = join(MODULEUPGRADE, id.as_str());
    join(dir.as_str(), METAINSTALL_SH)
}

/// Whether a module may be installed now: always when there is no
/// metamodule, or when the metamodule has no install hook (neither installed
/// nor staged), or when its directory is stable; otherwise the install must
/// wait, and the error tells whether the metamodule is disabled.
pub open spec fn install_safety(
    metamodule_path: Option<Seq<char>>,
    has_metainstall: bool,
    has_staged_metainstall: bool,
    dir: ModuleDirState,
) -> Result<(), bool> {
    match metamodule_path {
        None => Ok(()),
        Some(_) => if !has_metainstall && !has_staged_metainstall {
            Ok(())
        } else if stable(dir) {
            Ok(())
        } else {
            Err(dir.readable && dir.has_disable)
        },
    }
}

/// Law: while a metamodule with an install hook (installed or staged)
/// exists, an install may proceed exactly when the metamodule's directory can
/// be opened and holds none of the `update`, `remove` and `disable` markers;
/// when it must wait, the error says whether the directory could be opened
/// and holds the `disable` marker. Without a metamodule, or without a hook,
/// it always may.
pub proof fn law_install_safety(
    metamodule_path: Option<Seq<char>>,
    has_metainstall: bool,
    has_staged_metainstall: bool,
    dir: ModuleDirState,
)
    ensures
        metamodule_path is None ==> install_safety(
            metamodule_path,
            has_metainstall,
            has_staged_metainstall,
            dir,
        ) == Ok::<(), bool>(()),
        !has_metainstall && !has_staged_metainstall ==> install_safety(
            metamodule_path,
            has_metainstall,
            has_staged_metainstall,
            dir,
        ) == Ok::<(), bool>(()),
        metamodule_path is Some && (has_metainstall || has_staged_metainstall) ==> (install_safety(
            metamodule_path,
            has_metainstall,
            has_staged_metainstall,
            dir,
        ) == if dir.readable && !dir.has_update && !dir.has_remove && !dir.has_disable {
            Ok::<(), bool>(())
        } else {
            Err(dir.readable && dir.has_disable)
        }),
{
}

/// Decides whether a module may be installed now, given the metamodule
/// symlink's target, whether its install hook exists (at
/// `metainstall_script_path`, or staged at `staged_metainstall_path`), and
/// what its directory holds.
pub fn check_install_safety(
    metamodule_path: Option<&str>,
    has_metainstall: bool,
    has_staged_metainstall: bool,
    dir: &ModuleDirState,
) -> (r: Result<(), bool>)
    ensures
        r == install_safety(
            match metamodule_path {
                Some(p) => Some(p@),
                None => None,
            },
            has_metainstall,
            has_staged_metainstall,
            *dir,
        ),
{
    if metamodule_path.is_none() {
        return Ok(());
    }
    if !has_metainstall && !has_staged_metainstall {
        return Ok(());
    }
    if is_metamodule_stable(dir) {
        return Ok(());
    }
    Err(dir.readable && dir.has_disable)
}

/// The active metamodule that installing the module (whose `module.prop` is
/// given, at `candidate_path`) replaces: only a metamodule replaces one, and
/// only when the active metamodule is another module.
pub open spec fn replaced_by_install(
    module_prop: Seq<char>,
    candidate_path: Seq<char>,
    es: Seq<ModuleEntry>,
) -> Option<Seq<char>> {
    if !declares_metamodule(module_prop) {
        None
    } else {
        match selected_metamodule(es) {
            Some(existing) => if existing == candidate_path {
                None
            } else {
                Some(existing)
            },
            None => None,
        }
    }
}

/// Whether the module being installed may be installed. Only one metamodule
/// is active at a time, and installing a metamodule replaces any existing
/// one, so no install is refused on this account; the metamodule that is
/// replaced is the one `replaced_metamodule` gives.
pub fn check_metamodule_for_install(
    module_prop: &str,
    candidate_path: &str,
    entries: &Vec<ModuleEntry>,
) -> (r: bool)
    ensures
        r,
{
    true
}

/// The active metamodule that installing the module, whose `module.prop`
/// is given, replaces (`None` when the module is not a metamodule, when no
/// metamodule is active, or when it is the active one itself).
pub fn replaced_metamodule(
    module_prop: &str,
    candidate_path: &str,
    entries: &Vec<ModuleEntry>,
) -> (r: Option<String>)
    ensures
        match r {
            Some(e) => replaced_by_install(module_prop@, candidate_path@, entries@) == Some(e@),
            None => replaced_by_install(module_prop@, candidate_path@, entries@) is None,
        },
{
    if !is_metamodule(module_prop) {
        return None;
    }
    match find_metamodule(entries) {
        Some(existing) => {
            let candidate = candidate_path.to_owned();
            if existing == candidate {
                None
            } else {
                Some(existing)
            }
        },
        None => None,
    }
}

/// Law: after installing a metamodule, it is the one active metamodule: no
/// other module stays active beside it, because any other active metamodule
/// is the one that the install replaces.
pub proof fn law_install_replaces_active_metamodule(
    module_prop: Seq<char>,
    candidate_path: Seq<char>,
    es: Seq<ModuleEntry>,
)
    requires
        declares_metamodule(module_prop),
    ensures
        match selected_metamodule(es) {
            Some(existing) => existing == candidate_path || replaced_by_install(
                module_prop,
                candidate_path,
                es,
            ) == Some(existing),
            None => replaced_by_install(module_prop, candidate_path, es) is None,
        },
{
}

// ---------------------------------------------------------------------------
// Metamodule scripts
// ---------------------------------------------------------------------------

/// The metamodule script `name` that may run: none without a metamodule,
/// when its directory cannot be opened or is disabled, or when the script is
/// missing.
pub open spec fn metamodule_script(
    metamodule_path: Option<Seq<char>>,
    dir: ModuleDirState,
    name: Seq<char>,
    script_exists: bool,
) -> Option<Seq<char>> {
    match metamodule_path {
        None => None,
        Some(p) => if !dir.readable || dir.has_disable || !script_exists {
            None
        } else {
            Some(join_path(p, name))
        },
    }
}

/// The path of the metamodule script `name` that may run, given the
/// metamodule symlink's target, its directory, and whether
/// `join(path, name)` exists.
pub fn check_metamodule_script(
    metamodule_path: Option<&str>,
    dir: &ModuleDirState,
    name: &str,
    script_exists: bool,
) -> (r: Option<String>)
    ensures
        match r {
            Some(s) => metamodule_script(
                match metamodule_path {
                    Some(p) => Some(p@),
                    None => None,
                },
                *dir,
                name@,
                script_exists,
            ) == Some(s@),
            None => metamodule_script(
                match metamodule_path {
                    Some(p) => Some(p@),
                    None => None,
                },
                *dir,
                name@,
                script_exists,
            ) is None,
        },
{
    match metamodule_path {
        None => None,
        Some(p) => {
            if !dir.readable || dir.has_disable || !script_exists {
                None
            } else {
                Some(join(p, name))
            }
        },
    }
}

/// Law: a disabled metamodule, or one whose directory cannot be opened, runs
/// no script.
pub proof fn law_disabled_metamodule_runs_nothing(
    metamodule_path: Option<Seq<char>>,
    dir: ModuleDirState,
    name: Seq<char>,
    script_exists: bool,
)
    requires
        dir.has_disable || !dir.readable,
    ensures
        metamodule_script(metamodule_path, dir, name, script_exists) is None,
{
}

/// The metamodule's install hook, if it may run.
pub fn get_metainstall_script(
    metamodule_path: Option<&str>,
    dir: &ModuleDirState,
    script_exists: bool,
) -> (r: Option<String>)
    ensures
        match r {
            Some(s) => metamodule_script(
                match metamodule_path {
                    Some(p) => Some(p@),
                    None => None,
                },
                *dir,
                METAINSTALL_SH@,
                script_exists,
            ) == Some(s@),
            None => metamodule_script(
                match metamodule_path {
                    Some(p) => Some(p@),
                    None => None,
                },
                *dir,
                METAINSTALL_SH@,
                script_exists,
            ) is None,
        },
{
    check_metamodule_script(metamodule_path, dir, METAINSTALL_SH, script_exists)
}

/// A request to run a metamodule script: its file name inside the
/// metamodule, extra environment, and whether to wait for it.
pub struct ScriptRequest {
    pub script: String,
    pub envs: Vec<(String, String)>,
    pub block: bool,
}

/// Runs the metamodule script named `stage`, without waiting.
pub fn exec_metamodule_script(stage: &str) -> (r: ScriptRequest)
    ensures
        r.script@ == stage@,
        r.envs@.len() == 0,
        !r.block,
{
    ScriptRequest { script: stage.to_owned(), envs: Vec::new(), block: false }
}

/// Runs the metamodule's script for boot stage `stage` (`<stage>.sh`).
pub fn exec_stage_script(stage: &str, block: bool) -> (r: ScriptRequest)
    ensures
        r.script@ == stage@ + ".sh"@,
        r.envs@.len() == 0,
        r.block == block,
{
    ScriptRequest { script: concat(stage, ".sh"), envs: Vec::new(), block }
}

/// Runs the metamodule's mount script and waits for it; it is told where
/// the modules are and, when known, where the metamodule is.
pub fn exec_metamount(metamodule_path: Option<&str>) -> (r: ScriptRequest)
    ensures
        r.script@ == METAMOUNT_SH@,
        r.block,
        r.envs.deep_view() == seq![("MODULE_DIR"@, MODULEROOT@)] + match metamodule_path {
            Some(p) => seq![("METAMODULE_DIR"@, p@)],
            None => Seq::empty(),
        },
{
    let mut envs: Vec<(String, String)> = Vec::new();
    envs.push(("MODULE_DIR".to_owned(), MODULEROOT.to_owned()));
    match metamodule_path {
        Some(p) => {
            envs.push(("METAMODULE_DIR".to_owned(), p.to_owned()));
        },
        None => {},
    }
    let r = ScriptRequest { script: METAMOUNT_SH.to_owned(), envs, block: true };
    assert(r.envs.deep_view() =~= seq![("MODULE_DIR"@, MODULEROOT@)] + match metamodule_path {
        Some(p) => seq![("METAMODULE_DIR"@, p@)],
        None => Seq::empty(),
    });
    r
}

/// Runs the metamodule's uninstall hook for module `module_id` and waits.
pub fn exec_metauninstall_script(module_id: &str) -> (r: ScriptRequest)
    ensures
        r.script@ == METAUNINSTALL_SH@,
        r.block,
        r.envs.deep_view() == seq![("MODULE_ID"@, module_id@)],
{
    let mut envs: Vec<(String, String)> = Vec::new();
    envs.push(("MODULE_ID".to_owned(), module_id.to_owned()));
    let r = ScriptRequest { script: METAUNINSTALL_SH.to_owned(), envs, block: true };
    assert(r.envs.deep_view() =~= seq![("MODULE_ID"@, module_id@)]);
    r
}

/// How a metamodule script is launched.
pub enum ScriptLaunch {
    /// Nothing runs: there is no metamodule, it is disabled, or the script
    /// is missing.
    Skip,
    /// The shell is missing: the script is handed to the daemon's own script
    /// runner, which does not wait and passes no environment.
    Direct { script: String },
    /// `program args...` runs with `envs` added to its environment, with its
    /// output discarded; `block` tells whether to wait for it.
    Shell { program: String, args: Vec<String>, envs: Vec<(String, String)>, block: bool },
}

/// The environment every shell-launched metamodule script gets: `MODDIR`,
/// the metamodule's directory, and `KSU_MODULE`, its id, when known.
pub open spec fn common_envs(metamodule_path: Option<Seq<char>>) -> Seq<(Seq<char>, Seq<char>)> {
    match metamodule_path {
        None => Seq::empty(),
        Some(p) => seq![("MODDIR"@, p)] + match file_name(p) {
            Some(id) => seq![("KSU_MODULE"@, id)],
            None => Seq::empty(),
        },
    }
}

/// Plans how the requested metamodule script is launched, given the
/// metamodule symlink's target, its directory, whether the script exists
/// there, and whether the shell exists.
pub fn plan_script_launch(
    request: &ScriptRequest,
    metamodule_path: Option<&str>,
    dir: &ModuleDirState,
    script_exists: bool,
    busybox_present: bool,
) -> (r: ScriptLaunch)
    ensures
        ({
            let mp = match metamodule_path {
                Some(p) => Some(p@),
                None => None,
            };
            match metamodule_script(mp, *dir, request.script@, script_exists) {
                None => r is Skip,
                Some(s) => if !busybox_present {
                    r matches ScriptLaunch::Direct { script } && script@ == s
                } else {
                    r matches ScriptLaunch::Shell { program, args, envs, block } && program@
                        == BUSYBOX@ && args.deep_view() == seq!["sh"@, s] && envs.deep_view()
                        == request.envs.deep_view() + common_envs(mp) && block == request.block
                },
            }
        }),
{
    let script = match check_metamodule_script(
        metamodule_path,
        dir,
        request.script.as_str(),
        script_exists,
    ) {
        Some(s) => s,
        None => {
            return ScriptLaunch::Skip;
        },
    };
    if !busybox_present {
        return ScriptLaunch::Direct { script };
    }
    let mut args: Vec<String> = Vec::new();
    args.push("sh".to_owned());
    args.push(script);
    let mut envs: Vec<(String, String)> = Vec::new();
    let mut i: usize = 0;
    while i < request.envs.len()
        invariant
            i <= request.envs@.len(),
            envs.deep_view() == request.envs.deep_view().take(i as int),
        decreases request.envs.len() - i,
    {
        let e = (request.envs[i].0.clone(), request.envs[i].1.clone());
        assert(e == request.envs@[i as int]);
        let ghost before = envs.deep_view();
        envs.push(e);
        assert(envs.deep_view() =~= before.push(request.envs@[i as int].deep_view()));
        assert(request.envs.deep_view()[i as int] == request.envs@[i as int].deep_view());
        assert(envs.deep_view() =~= request.envs.deep_view().take(i + 1));
        i = i + 1;
    }
    assert(request.envs.deep_view().take(request.envs@.len() as int) =~= request.envs.deep_view());
    let ghost before = envs.deep_view();
    match metamodule_path {
        Some(p) => {
            envs.push(("MODDIR".to_owned(), p.to_owned()));
            let ghost mid = envs.deep_view();
            assert(mid =~= before + seq![("MODDIR"@, p@)]);
            match path_file_name(p) {
                Some(id) => {
                    envs.push(("KSU_MODULE".to_owned(), id));
                    assert(envs.deep_view() =~= before + common_envs(Some(p@)));
                },
                None => {
                    assert(envs.deep_view() =~= before + common_envs(Some(p@)));
                },
            }
        },
        None => {
            assert(envs.deep_view() =~= before + common_envs(None));
        },
    }
    let r = ScriptLaunch::Shell { program: BUSYBOX.to_owned(), args, envs, block: request.block };
    assert(args.deep_view() =~= seq!["sh"@, script@]);
    r
}

// ---------------------------------------------------------------------------
// Configuration handed to the metamodule's scripts
// ---------------------------------------------------------------------------

/// The environment entry `name=value` when key `key` is set in `m`.
pub open spec fn env_if_set(m: Map<Seq<char>, Seq<char>>, key: Seq<char>, name: Seq<char>) -> Seq<
    (Seq<char>, Seq<char>),
> {
    if m.contains_key(key) {
        seq![(name, m[key])]
    } else {
        Seq::empty()
    }
}

/// The environment derived from the metamodule's persistent configuration:
/// `KSU_SU_COMPAT` from `manage.su_compat`, then `KSU_KERNEL_UMOUNT` from
/// `manage.kernel_umount`, each only when set; nothing without a metamodule.
pub open spec fn metamodule_config_envs(configs: Option<Map<Seq<char>, Seq<char>>>) -> Seq<
    (Seq<char>, Seq<char>),
> {
    match configs {
        None => Seq::empty(),
        Some(m) => env_if_set(m, "manage.su_compat"@, "KSU_SU_COMPAT"@) + env_if_set(
            m,
            "manage.kernel_umount"@,
            "KSU_KERNEL_UMOUNT"@,
        ),
    }
}

/// The environment derived from the metamodule's persistent configuration
/// (`None` when there is no metamodule).
pub fn load_metamodule_config_envs(metamodule_config: Option<&ConfigStore>) -> (r: Vec<(String, String)>)
    requires
        match metamodule_config {
            Some(c) => c.wf(),
            None => true,
        },
    ensures
        r.deep_view() == metamodule_config_envs(
            match metamodule_config {
                Some(c) => Some(c@),
                None => None,
            },
        ),
{
    let mut envs: Vec<(String, String)> = Vec::new();
    match metamodule_config {
        None => {
            assert(envs.deep_view() =~= Seq::<(Seq<char>, Seq<char>)>::empty());
        },
        Some(c) => {
            match c.get("manage.su_compat") {
                Some(v) => envs.push(("KSU_SU_COMPAT".to_owned(), v)),
                None => {},
            }
            let ghost first = envs.deep_view();
            assert(first =~= env_if_set(c@, "manage.su_compat"@, "KSU_SU_COMPAT"@));
            match c.get("manage.kernel_umount") {
                Some(v) => envs.push(("KSU_KERNEL_UMOUNT".to_owned(), v)),
                None => {},
            }
            assert(envs.deep_view() =~= first + env_if_set(
                c@,
                "manage.kernel_umount"@,
                "KSU_KERNEL_UMOUNT"@,
            ));
        },
    }
    envs
}

} // verus!
