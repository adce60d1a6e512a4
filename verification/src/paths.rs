//! Paths: the fixed directories of the module system, joining a component
//! onto a path, and the final component (file name) of a path.
use crate::text::{chars_of, concat, push_char, string_of_range};
use vstd::prelude::*;

verus! {

/// Directory of root's persistent data.
pub const SECURE_DIR: &'static str = "/data/adb";

/// Directory of the installed modules.
pub const MODULEROOT: &'static str = "/data/adb/modules";

/// Directory where module updates are staged until the next boot.
pub const MODULEUPGRADE: &'static str = "/data/adb/modules_update";

/// Symlink to the active metamodule.
pub const METAMODULE: &'static str = "/data/adb/metamodule";

/// `comp` joined onto `base`: an absolute `comp` replaces `base`; otherwise a
/// `/` separates them unless `base` is empty or already ends with one.
pub open spec fn join_path(base: Seq<char>, comp: Seq<char>) -> Seq<char> {
    if comp.len() > 0 && comp[0] == '/' {
        comp
    } else if base.len() == 0 || base.last() == '/' {
        base + comp
    } else {
        base + seq!['/'] + comp
    }
}

/// Joins `comp` onto `base`.
pub fn join(base: &str, comp: &str) -> (r: String)
    ensures
        r@ == join_path(base@, comp@),
{
    let b = chars_of(base);
    let c = chars_of(comp);
    if c.len() > 0 && c[0] == '/' {
        return comp.to_owned();
    }
    if b.len() == 0 || b[b.len() - 1] == '/' {
        return concat(base, comp);
    }
    let mut r = base.to_owned();
    push_char(&mut r, '/');
    r.append(comp);
    r
}

/// Where the segment that ends at `end` starts: just after the last `/`
/// before `end`, or at 0.
pub open spec fn segment_start(p: Seq<char>, end: int) -> int
    decreases end,
{
    if end <= 0 {
        0
    } else if p[end - 1] == '/' {
        end
    } else {
        segment_start(p, end - 1)
    }
}

pub proof fn lemma_segment_start_bounds(p: Seq<char>, end: int)
    requires
        0 <= end,
    ensures
        0 <= segment_start(p, end) <= end,
        segment_start(p, end) > 0 ==> p[segment_start(p, end) - 1] == '/',
        forall|j: int| segment_start(p, end) <= j < end ==> p[j] != '/',
    decreases end,
{
    if end > 0 && p[end - 1] != '/' {
        lemma_segment_start_bounds(p, end - 1);
    }
}

/// The final component of `p[..end]`: empty and `.` segments are passed
/// over, a final `..` or no component at all gives `None`.
pub open spec fn file_name_upto(p: Seq<char>, end: int) -> Option<Seq<char>>
    decreases end,
{
    if end <= 0 {
        None
    } else {
        let s = segment_start(p, end);
        let seg = p.subrange(s, end);
        if seg.len() == 0 || seg == seq!['.'] {
            if s <= 0 {
                None
            } else {
                proof {
                    lemma_segment_start_bounds(p, end);
                }
                file_name_upto(p, s - 1)
            }
        } else if seg == seq!['.', '.'] {
            None
        } else {
            Some(seg)
        }
    }
}

/// The final component of the path `p`, as `std::path::Path::file_name`
/// defines it: `None` when the path ends in `..` or has no final component.
pub open spec fn file_name(p: Seq<char>) -> Option<Seq<char>> {
    file_name_upto(p, p.len() as int)
}

/// The final component of `path`.
pub fn path_file_name(path: &str) -> (r: Option<String>)
    ensures
        match r {
            Some(n) => file_name(path@) == Some(n@),
            None => file_name(path@) is None,
        },
{
    let cs = chars_of(path);
    let mut end = cs.len();
    loop
        invariant
            end <= cs@.len(),
            file_name(path@) == file_name_upto(cs@, end as int),
            cs@ == path@,
        decreases end,
    {
        if end == 0 {
            return None;
        }
        let mut s = end;
        while s > 0 && cs[s - 1] != '/'
            invariant
                s <= end <= cs@.len(),
                segment_start(cs@, end as int) == segment_start(cs@, s as int),
            decreases s,
        {
            s = s - 1;
        }
        assert(segment_start(cs@, s as int) == s);
        let ghost seg = cs@.subrange(s as int, end as int);
        if s == end || (end - s == 1 && cs[s] == '.') {
            assert(seg.len() == 0 || seg =~= seq!['.']);
            if s == 0 {
                return None;
            }
            end = s - 1;
        } else {
            assert(seg !== seq!['.']) by {
                if seg.len() == 1 {
                    assert(seg[0] == cs@[s as int]);
                }
            }
            if end - s == 2 && cs[s] == '.' && cs[s + 1] == '.' {
                assert(seg =~= seq!['.', '.']);
                return None;
            }
            assert(seg !== seq!['.', '.']) by {
                if seg.len() == 2 {
                    assert(seg[0] == cs@[s as int] && seg[1] == cs@[s + 1]);
                }
            }
            return Some(string_of_range(&cs, s, end));
        }
    }
}

/// The directory of the installed module `name`.
pub fn module_dir(name: &str) -> (r: String)
    ensures
        r@ == join_path(MODULEROOT@, name@),
{
    join(MODULEROOT, name)
}

/// A name that is a single ordinary path component.
pub open spec fn plain_component(name: Seq<char>) -> bool {
    &&& name.len() > 0
    &&& forall|j: int| 0 <= j < name.len() ==> name[j] != '/'
    &&& name != seq!['.']
    &&& name != seq!['.', '.']
}

/// Law: the file name of `base/name`, for a plain component `name`, is `name`.
pub proof fn law_file_name_of_joined(base: Seq<char>, name: Seq<char>)
    requires
        plain_component(name),
    ensures
        file_name(join_path(base, name)) == Some(name),
{
    let p = join_path(base, name);
    let n = p.len() as int;
    let a = n - name.len();
    assert(p.subrange(a, n) =~= name);
    assert(forall|j: int| a <= j < n ==> p[j] == name[j - a]);
    assert(a == 0 || p[a - 1] == '/');
    lemma_segment_start_at(p, a, n);
}

proof fn lemma_segment_start_at(p: Seq<char>, a: int, end: int)
    requires
        0 <= a <= end <= p.len(),
        a == 0 || p[a - 1] == '/',
        forall|j: int| a <= j < end ==> p[j] != '/',
    ensures
        segment_start(p, end) == a,
    decreases end,
{
    if end > a {
        lemma_segment_start_at(p, a, end - 1);
    }
}

/// Law: the directory of the installed module `name` ends in the component
/// `name`, so the module's id is recovered from its directory.
pub proof fn law_module_dir_file_name(name: Seq<char>)
    requires
        plain_component(name),
    ensures
        file_name(join_path(MODULEROOT@, name)) == Some(name),
{
    law_file_name_of_joined(MODULEROOT@, name);
}

} // verus!
