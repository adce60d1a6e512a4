//! Per-module key/value configuration: the `key=value` file format, the
//! in-memory store that `get_config`, `set_config` and `delete_config` act on,
//! and the laws that tie a written file to what is read back from it.
use crate::text::{
    chars_of, has_char, is_white_space, lemma_subrange_lacks, lemma_trim_end_shape, lemma_trim_shape, push_char, string_of_range, trim, trim_end, trim_range, trim_start,
};
use crate::paths::{join, join_path};
use vstd::prelude::*;

verus! {

/// One `key=value` entry, as character sequences.
pub type EntryView = (Seq<char>, Seq<char>);

// ---------------------------------------------------------------------------
// The file format
// ---------------------------------------------------------------------------

/// One step of splitting text into lines: a newline closes the current line.
pub open spec fn split_step(acc: (Seq<Seq<char>>, Seq<char>), c: char) -> (Seq<Seq<char>>, Seq<char>) {
    if c == '\n' {
        (acc.0.push(acc.1), Seq::empty())
    } else {
        (acc.0, acc.1.push(c))
    }
}

/// The closed lines of `t` and the unfinished last line.
pub open spec fn split_acc(t: Seq<char>) -> (Seq<Seq<char>>, Seq<char>)
    decreases t.len(),
{
    if t.len() == 0 {
        (Seq::empty(), Seq::empty())
    } else {
        split_step(split_acc(t.drop_last()), t.last())
    }
}

/// The lines of `t`: the pieces between newline characters.
pub open spec fn lines_of(t: Seq<char>) -> Seq<Seq<char>> {
    let acc = split_acc(t);
    acc.0.push(acc.1)
}

/// The position of the first `c` in `t` (meaningful when `has_char(t, c)`).
pub open spec fn first_position(t: Seq<char>, c: char) -> int {
    choose|p: int| 0 <= p < t.len() && t[p] == c && forall|j: int| 0 <= j < p ==> t[j] != c
}

/// What one line of a configuration file contributes: after trimming, blank
/// lines, lines that start with `#` and lines without `=` contribute nothing;
/// otherwise the line is split at its first `=` and both sides are trimmed.
pub open spec fn parse_config_line(l: Seq<char>) -> Option<EntryView> {
    let t = trim(l);
    if t.len() == 0 || t[0] == '#' || !has_char(t, '=') {
        None
    } else {
        let p = first_position(t, '=');
        Some((trim(t.subrange(0, p)), trim(t.subrange(p + 1, t.len() as int))))
    }
}

/// The map that a sequence of entries gives when they are inserted in order:
/// a later entry for a key replaces an earlier one.
pub open spec fn entries_map(es: Seq<EntryView>) -> Map<Seq<char>, Seq<char>>
    decreases es.len(),
{
    if es.len() == 0 {
        Map::empty()
    } else {
        entries_map(es.drop_last()).insert(es.last().0, es.last().1)
    }
}

/// The configuration that a sequence of lines gives.
pub open spec fn config_of_lines(ls: Seq<Seq<char>>) -> Map<Seq<char>, Seq<char>>
    decreases ls.len(),
{
    if ls.len() == 0 {
        Map::empty()
    } else {
        let m = config_of_lines(ls.drop_last());
        match parse_config_line(ls.last()) {
            Some(e) => m.insert(e.0, e.1),
            None => m,
        }
    }
}

/// The configuration that the text of a configuration file gives.
pub open spec fn config_of_text(t: Seq<char>) -> Map<Seq<char>, Seq<char>> {
    config_of_lines(lines_of(t))
}

/// The line `key=value` that one entry is written as, without its newline.
pub open spec fn entry_line(e: EntryView) -> Seq<char> {
    e.0 + seq!['='] + e.1
}

/// The text of a configuration file holding `es`: one `key=value` line each,
/// every line ended by a newline.
pub open spec fn render_entries(es: Seq<EntryView>) -> Seq<char>
    decreases es.len(),
{
    if es.len() == 0 {
        Seq::empty()
    } else {
        render_entries(es.drop_last()) + entry_line(es.last()) + seq!['\n']
    }
}

/// No two entries share a key.
pub open spec fn distinct_keys(es: Seq<EntryView>) -> bool {
    forall|i: int, j: int|
        0 <= i < es.len() && 0 <= j < es.len() && i != j ==> #[trigger] es[i].0 != #[trigger] es[j].0
}

/// Whether some entry has key `k`.
pub open spec fn has_key(es: Seq<EntryView>, k: Seq<char>) -> bool {
    exists|i: int| 0 <= i < es.len() && #[trigger] es[i].0 == k
}

/// The index of an entry with key `k` (meaningful when `has_key(es, k)`).
pub open spec fn key_index(es: Seq<EntryView>, k: Seq<char>) -> int {
    choose|i: int| 0 <= i < es.len() && #[trigger] es[i].0 == k
}

/// The entries after setting `k` to `v`: an existing entry keeps its place and
/// takes the new value, a new key goes last.
pub open spec fn set_entries(es: Seq<EntryView>, k: Seq<char>, v: Seq<char>) -> Seq<EntryView> {
    if has_key(es, k) {
        es.update(key_index(es, k), (k, v))
    } else {
        es.push((k, v))
    }
}

/// The entries after removing key `k`.
pub open spec fn remove_entries(es: Seq<EntryView>, k: Seq<char>) -> Seq<EntryView> {
    if has_key(es, k) {
        es.remove(key_index(es, k))
    } else {
        es
    }
}

// ---------------------------------------------------------------------------
// Lemmas on entries_map
// ---------------------------------------------------------------------------

pub proof fn lemma_entries_map_has_key(es: Seq<EntryView>, k: Seq<char>)
    ensures
        entries_map(es).contains_key(k) <==> has_key(es, k),
    decreases es.len(),
{
    if es.len() > 0 {
        let d = es.drop_last();
        lemma_entries_map_has_key(d, k);
        if has_key(d, k) {
            let i = choose|i: int| 0 <= i < d.len() && #[trigger] d[i].0 == k;
            assert(es[i].0 == k);
        }
        if has_key(es, k) && es.last().0 != k {
            let i = choose|i: int| 0 <= i < es.len() && #[trigger] es[i].0 == k;
            assert(i != es.len() - 1);
            assert(d[i].0 == k);
        }
    }
}

pub proof fn lemma_entries_map_value(es: Seq<EntryView>, i: int)
    requires
        distinct_keys(es),
        0 <= i < es.len(),
    ensures
        entries_map(es).contains_key(es[i].0),
        entries_map(es)[es[i].0] == es[i].1,
    decreases es.len(),
{
    let d = es.drop_last();
    if i < es.len() - 1 {
        assert(es[i].0 != es[es.len() - 1].0);
        assert(d[i] == es[i]);
        lemma_entries_map_value(d, i);
    }
}

pub proof fn lemma_entries_map_update(es: Seq<EntryView>, i: int, v: Seq<char>)
    requires
        distinct_keys(es),
        0 <= i < es.len(),
    ensures
        entries_map(es.update(i, (es[i].0, v))) =~= entries_map(es).insert(es[i].0, v),
    decreases es.len(),
{
    let k = es[i].0;
    let d = es.drop_last();
    let u = es.update(i, (k, v));
    if i == es.len() - 1 {
        assert(u.drop_last() =~= d);
    } else {
        assert(u.drop_last() =~= d.update(i, (k, v)));
        assert(d[i] == es[i]);
        lemma_entries_map_update(d, i, v);
        assert(es.last().0 != k);
        assert(u.last() == es.last());
    }
}

pub proof fn lemma_entries_map_remove(es: Seq<EntryView>, i: int)
    requires
        distinct_keys(es),
        0 <= i < es.len(),
    ensures
        entries_map(es.remove(i)) =~= entries_map(es).remove(es[i].0),
    decreases es.len(),
{
    let k = es[i].0;
    let d = es.drop_last();
    if i == es.len() - 1 {
        assert(es.remove(i) =~= d);
        lemma_entries_map_has_key(d, k);
        if has_key(d, k) {
            let j = choose|j: int| 0 <= j < d.len() && #[trigger] d[j].0 == k;
            assert(es[j].0 == k);
        }
    } else {
        assert(es.remove(i).drop_last() =~= d.remove(i));
        assert(es.remove(i).last() == es.last());
        assert(d[i] == es[i]);
        lemma_entries_map_remove(d, i);
        assert(es.last().0 != k);
    }
}

pub proof fn lemma_set_entries(es: Seq<EntryView>, k: Seq<char>, v: Seq<char>)
    requires
        distinct_keys(es),
    ensures
        distinct_keys(set_entries(es, k, v)),
        entries_map(set_entries(es, k, v)) =~= entries_map(es).insert(k, v),
{
    if has_key(es, k) {
        let i = key_index(es, k);
        lemma_entries_map_update(es, i, v);
    } else {
        let n = set_entries(es, k, v);
        assert(n.drop_last() =~= es);
        assert forall|i: int, j: int|
            0 <= i < n.len() && 0 <= j < n.len() && i != j implies #[trigger] n[i].0
            != #[trigger] n[j].0 by {
            if i < es.len() && j < es.len() {
                assert(n[i] == es[i] && n[j] == es[j]);
            } else if i < es.len() {
                assert(n[i] == es[i]);
            } else {
                assert(n[j] == es[j]);
            }
        }
    }
}

pub proof fn lemma_remove_entries(es: Seq<EntryView>, k: Seq<char>)
    requires
        distinct_keys(es),
    ensures
        distinct_keys(remove_entries(es, k)),
        entries_map(remove_entries(es, k)) =~= entries_map(es).remove(k),
{
    lemma_entries_map_has_key(es, k);
    if has_key(es, k) {
        let i = key_index(es, k);
        lemma_entries_map_remove(es, i);
        let n = es.remove(i);
        assert forall|a: int, b: int|
            0 <= a < n.len() && 0 <= b < n.len() && a != b implies #[trigger] n[a].0
            != #[trigger] n[b].0 by {
            let a2 = if a < i { a } else { a + 1 };
            let b2 = if b < i { b } else { b + 1 };
            assert(n[a] == es[a2] && n[b] == es[b2]);
        }
    }
}

// ---------------------------------------------------------------------------
// The store
// ---------------------------------------------------------------------------

/// The configuration of one module: its entries, in the order they were first
/// set, no two with the same key.
pub struct ConfigStore {
    entries: Vec<(String, String)>,
}

impl View for ConfigStore {
    type V = Map<Seq<char>, Seq<char>>;

    open spec fn view(&self) -> Map<Seq<char>, Seq<char>> {
        entries_map(self.entries_view())
    }
}

impl ConfigStore {
    /// The entries, in order, as character sequences.
    pub closed spec fn entries_view(&self) -> Seq<EntryView> {
        self.entries@.map_values(|e: (String, String)| (e.0@, e.1@))
    }

    /// The store's invariant: no key occurs twice.
    pub open spec fn wf(&self) -> bool {
        distinct_keys(self.entries_view())
    }

    /// An empty configuration.
    pub fn new() -> (r: ConfigStore)
        ensures
            r.wf(),
            r.entries_view() == Seq::<EntryView>::empty(),
            r@ == Map::<Seq<char>, Seq<char>>::empty(),
    {
        let r = ConfigStore { entries: Vec::new() };
        assert(r.entries_view() =~= Seq::<EntryView>::empty());
        r
    }

    /// The number of entries.
    pub fn len(&self) -> (n: usize)
        ensures
            n == self.entries_view().len(),
    {
        self.entries.len()
    }

    /// The position of the entry with key `key`, if there is one.
    fn position(&self, key: &String) -> (r: Option<usize>)
        requires
            self.wf(),
        ensures
            match r {
                Some(i) => i < self.entries_view().len() && self.entries_view()[i as int].0 == key@
                    && key_index(self.entries_view(), key@) == i,
                None => !has_key(self.entries_view(), key@),
            },
    {
        let ghost ev = self.entries_view();
        let mut i: usize = 0;
        while i < self.entries.len()
            invariant
                ev == self.entries_view(),
                ev.len() == self.entries@.len(),
                i <= self.entries@.len(),
                distinct_keys(ev),
                forall|j: int| 0 <= j < i ==> #[trigger] ev[j].0 != key@,
            decreases self.entries.len() - i,
        {
            assert(ev[i as int] == (self.entries@[i as int].0@, self.entries@[i as int].1@));
            let same = self.entries[i].0.eq(key);
            assert(same == (self.entries@[i as int].0@ == key@));
            if same {
                let ghost c = key_index(ev, key@);
                assert(ev[i as int].0 == key@);
                assert(has_key(ev, key@));
                assert(ev[c].0 == key@);
                assert(c == i as int);
                return Some(i);
            }
            i = i + 1;
        }
        assert forall|j: int| 0 <= j < ev.len() implies #[trigger] ev[j].0 != key@ by {}
        None
    }

    /// The value set for `key`, if any.
    pub fn get(&self, key: &str) -> (r: Option<String>)
        requires
            self.wf(),
        ensures
            match r {
                Some(v) => self@.contains_key(key@) && v@ == self@[key@],
                None => !self@.contains_key(key@),
            },
    {
        let k = key.to_owned();
        proof {
            lemma_entries_map_has_key(self.entries_view(), key@);
        }
        match self.position(&k) {
            Some(i) => {
                proof {
                    lemma_entries_map_value(self.entries_view(), i as int);
                }
                Some(self.entries[i].1.clone())
            },
            None => None,
        }
    }

    /// Sets `key` to `value`, replacing any value it had.
    pub fn set(&mut self, key: &str, value: &str)
        requires
            old(self).wf(),
        ensures
            final(self).wf(),
            final(self).entries_view() == set_entries(old(self).entries_view(), key@, value@),
            final(self)@ == old(self)@.insert(key@, value@),
    {
        let k = key.to_owned();
        let v = value.to_owned();
        let ghost ev = self.entries_view();
        proof {
            lemma_set_entries(ev, key@, value@);
        }
        match self.position(&k) {
            Some(i) => {
                self.entries.set(i, (k, v));
                assert(self.entries_view() =~= ev.update(i as int, (key@, value@)));
            },
            None => {
                self.entries.push((k, v));
                assert(self.entries_view() =~= ev.push((key@, value@)));
            },
        }
    }

    /// Removes `key` and its value, if it is there.
    pub fn remove(&mut self, key: &str)
        requires
            old(self).wf(),
        ensures
            final(self).wf(),
            final(self).entries_view() == remove_entries(old(self).entries_view(), key@),
            final(self)@ == old(self)@.remove(key@),
    {
        let k = key.to_owned();
        let ghost ev = self.entries_view();
        proof {
            lemma_remove_entries(ev, key@);
        }
        match self.position(&k) {
            Some(i) => {
                self.entries.remove(i);
                assert(self.entries_view() =~= ev.remove(i as int));
            },
            None => {},
        }
    }

    /// The entries as owned pairs, in order.
    pub fn to_pairs(&self) -> (r: Vec<(String, String)>)
        ensures
            r@.len() == self.entries_view().len(),
            forall|i: int|
                0 <= i < r@.len() ==> (#[trigger] r@[i]).0@ == self.entries_view()[i].0 && r@[i].1@
                    == self.entries_view()[i].1,
    {
        let mut r: Vec<(String, String)> = Vec::new();
        let mut i: usize = 0;
        while i < self.entries.len()
            invariant
                i <= self.entries@.len(),
                r@.len() == i,
                forall|j: int|
                    0 <= j < i ==> (#[trigger] r@[j]).0@ == self.entries_view()[j].0 && r@[j].1@
                        == self.entries_view()[j].1,
            decreases self.entries.len() - i,
        {
            let e = (self.entries[i].0.clone(), self.entries[i].1.clone());
            r.push(e);
            i = i + 1;
        }
        r
    }
}

// ---------------------------------------------------------------------------
// Reading and writing the file format
// ---------------------------------------------------------------------------

/// The entry that the line `cs[lo..hi]` gives, if any.
fn parse_line_range(cs: &Vec<char>, lo: usize, hi: usize) -> (r: Option<(String, String)>)
    requires
        lo <= hi <= cs.len(),
    ensures
        match r {
            Some(e) => parse_config_line(cs@.subrange(lo as int, hi as int)) == Some((e.0@, e.1@)),
            None => parse_config_line(cs@.subrange(lo as int, hi as int)) is None,
        },
{
    let (a, b) = trim_range(cs, lo, hi);
    let ghost t = cs@.subrange(a as int, b as int);
    if a == b {
        return None;
    }
    assert(t[0] == cs@[a as int]);
    if cs[a] == '#' {
        return None;
    }
    let mut p = a;
    while p < b && cs[p] != '='
        invariant
            a <= p <= b <= cs.len(),
            forall|j: int| a <= j < p ==> cs@[j] != '=',
        decreases b - p,
    {
        p = p + 1;
    }
    if p == b {
        assert forall|j: int| 0 <= j < t.len() implies t[j] != '=' by {
            assert(t[j] == cs@[a + j]);
        }
        return None;
    }
    let ghost q = p - a;
    assert(t[q] == '=');
    assert(forall|j: int| 0 <= j < q ==> t[j] == cs@[a + j]);
    assert(has_char(t, '='));
    let ghost f = first_position(t, '=');
    assert(0 <= f < t.len() && t[f] == '=' && forall|j: int| 0 <= j < f ==> t[j] != '=');
    assert(f == q) by {
        if f < q {
            assert(t[f] == cs@[a + f]);
        }
        if q < f {
            assert(t[q] != '=');
        }
    }
    assert(t.subrange(0, q) =~= cs@.subrange(a as int, p as int));
    assert(t.subrange(q + 1, t.len() as int) =~= cs@.subrange(p + 1, b as int));
    let (ka, kb) = trim_range(cs, a, p);
    let (va, vb) = trim_range(cs, p + 1, b);
    Some((string_of_range(cs, ka, kb), string_of_range(cs, va, vb)))
}

/// Reads the text of a configuration file (`""` for a file that cannot be
/// opened): every line that holds a `=` outside a comment sets the trimmed key
/// to the trimmed value, later lines overriding earlier ones.
pub fn read_config_file(contents: &str) -> (r: ConfigStore)
    ensures
        r.wf(),
        r@ == config_of_text(contents@),
        clean_entries(r.entries_view()),
{
    let cs = chars_of(contents);
    let mut store = ConfigStore::new();
    let mut start: usize = 0;
    let mut i: usize = 0;
    let ghost mut done: Seq<Seq<char>> = Seq::empty();
    assert(cs@.take(0) =~= Seq::<char>::empty());
    assert(cs@.subrange(0, 0) =~= Seq::<char>::empty());
    while i < cs.len()
        invariant
            start <= i <= cs.len(),
            store.wf(),
            split_acc(cs@.take(i as int)) == (done, cs@.subrange(start as int, i as int)),
            store@ == config_of_lines(done),
            clean_entries(store.entries_view()),
            forall|j: int| start <= j < i ==> cs@[j] != '\n',
        decreases cs.len() - i,
    {
        assert(cs@.take(i + 1).drop_last() =~= cs@.take(i as int));
        assert(cs@.take(i + 1).last() == cs@[i as int]);
        if cs[i] == '\n' {
            let e = parse_line_range(&cs, start, i);
            let ghost line = cs@.subrange(start as int, i as int);
            assert(done.push(line).drop_last() =~= done);
            assert(!has_char(line, '\n')) by {
                assert forall|j: int| 0 <= j < line.len() implies line[j] != '\n' by {
                    assert(line[j] == cs@[start + j]);
                }
            }
            match e {
                Some(kv) => {
                    proof {
                        lemma_parsed_line_clean(line);
                        lemma_set_keeps_clean(store.entries_view(), kv.0@, kv.1@);
                    }
                    store.set(kv.0.as_str(), kv.1.as_str());
                },
                None => {},
            }
            proof {
                done = done.push(line);
            }
            start = i + 1;
            assert(cs@.subrange(start as int, i + 1) =~= Seq::<char>::empty());
        } else {
            assert(cs@.subrange(start as int, i + 1) =~= cs@.subrange(start as int, i as int).push(
                cs@[i as int],
            ));
        }
        i = i + 1;
    }
    assert(cs@.take(cs@.len() as int) =~= cs@);
    let e = parse_line_range(&cs, start, cs.len());
    let ghost line = cs@.subrange(start as int, cs@.len() as int);
    assert(done.push(line).drop_last() =~= done);
    assert(!has_char(line, '\n')) by {
        assert forall|j: int| 0 <= j < line.len() implies line[j] != '\n' by {
            assert(line[j] == cs@[start + j]);
        }
    }
    match e {
        Some(kv) => {
            proof {
                lemma_parsed_line_clean(line);
                lemma_set_keeps_clean(store.entries_view(), kv.0@, kv.1@);
            }
            store.set(kv.0.as_str(), kv.1.as_str());
        },
        None => {},
    }
    store
}

/// The text written for `configs`: one `key=value` line per entry, in order.
pub fn write_config_file(configs: &ConfigStore) -> (r: String)
    ensures
        r@ == render_entries(configs.entries_view()),
{
    let ghost ev = configs.entries_view();
    let mut r = String::new();
    let mut i: usize = 0;
    assert(ev.take(0) =~= Seq::<EntryView>::empty());
    while i < configs.entries.len()
        invariant
            ev == configs.entries_view(),
            ev.len() == configs.entries@.len(),
            i <= ev.len(),
            r@ == render_entries(ev.take(i as int)),
        decreases configs.entries.len() - i,
    {
        assert(ev.take(i + 1).drop_last() =~= ev.take(i as int));
        assert(ev[i as int] == (configs.entries@[i as int].0@, configs.entries@[i as int].1@));
        r.append(configs.entries[i].0.as_str());
        push_char(&mut r, '=');
        r.append(configs.entries[i].1.as_str());
        push_char(&mut r, '\n');
        assert(r@ =~= render_entries(ev.take(i as int)) + entry_line(ev[i as int]) + seq!['\n']);
        i = i + 1;
    }
    assert(ev.take(ev.len() as int) =~= ev);
    r
}

// ---------------------------------------------------------------------------
// Laws of the file format
// ---------------------------------------------------------------------------

/// A key that survives being written and read back: no `=` or newline, no
/// whitespace at either end, and no leading `#`.
pub open spec fn clean_key(k: Seq<char>) -> bool {
    &&& !has_char(k, '=')
    &&& !has_char(k, '\n')
    &&& k.len() > 0 ==> !is_white_space(k[0]) && !is_white_space(k.last()) && k[0] != '#'
}

/// A value that survives being written and read back: no newline and no
/// whitespace at either end.
pub open spec fn clean_value(v: Seq<char>) -> bool {
    &&& !has_char(v, '\n')
    &&& v.len() > 0 ==> !is_white_space(v[0]) && !is_white_space(v.last())
}

/// Every entry has a clean key and a clean value.
pub open spec fn clean_entries(es: Seq<EntryView>) -> bool {
    forall|i: int| 0 <= i < es.len() ==> clean_key(#[trigger] es[i].0) && clean_value(es[i].1)
}

proof fn lemma_split_no_newline(t: Seq<char>, y: Seq<char>)
    requires
        !has_char(y, '\n'),
    ensures
        split_acc(t + y) == (split_acc(t).0, split_acc(t).1 + y),
    decreases y.len(),
{
    if y.len() == 0 {
        assert(t + y =~= t);
        assert(split_acc(t).1 + y =~= split_acc(t).1);
    } else {
        let y2 = y.drop_last();
        assert(!has_char(y2, '\n')) by {
            assert forall|i: int| 0 <= i < y2.len() implies y2[i] != '\n' by {
                assert(y2[i] == y[i]);
            }
        }
        lemma_split_no_newline(t, y2);
        assert((t + y).drop_last() =~= t + y2);
        assert((t + y).last() == y.last());
        assert(y.last() != '\n');
        assert(split_acc(t).1 + y2 + seq![y.last()] =~= split_acc(t).1 + y);
        assert((split_acc(t).1 + y2).push(y.last()) =~= split_acc(t).1 + y);
    }
}

proof fn lemma_concat_has_no_char(a: Seq<char>, b: Seq<char>, c: char)
    requires
        !has_char(a, c),
        !has_char(b, c),
    ensures
        !has_char(a + b, c),
{
    assert forall|i: int| 0 <= i < (a + b).len() implies (a + b)[i] != c by {
        if i < a.len() {
            assert((a + b)[i] == a[i]);
        } else {
            assert((a + b)[i] == b[i - a.len()]);
        }
    }
}

proof fn lemma_split_rendered(es: Seq<EntryView>)
    requires
        clean_entries(es),
    ensures
        split_acc(render_entries(es)) == (es.map_values(|e: EntryView| entry_line(e)), Seq::<char>::empty()),
    decreases es.len(),
{
    if es.len() == 0 {
        assert(es.map_values(|e: EntryView| entry_line(e)) =~= Seq::<Seq<char>>::empty());
    } else {
        let d = es.drop_last();
        assert(clean_entries(d)) by {
            assert forall|i: int| 0 <= i < d.len() implies clean_key(#[trigger] d[i].0) && clean_value(d[i].1) by {
                assert(d[i] == es[i]);
            }
        }
        lemma_split_rendered(d);
        let e = es.last();
        assert(clean_key(es[es.len() - 1].0));
        let line = entry_line(e);
        assert(!has_char(seq!['='], '\n'));
        lemma_concat_has_no_char(e.0, seq!['='], '\n');
        lemma_concat_has_no_char(e.0 + seq!['='], e.1, '\n');
        let x = render_entries(d) + line;
        lemma_split_no_newline(render_entries(d), line);
        assert(Seq::<char>::empty() + line =~= line);
        assert(render_entries(es) =~= x.push('\n'));
        assert(x.push('\n').drop_last() =~= x);
        assert(es.map_values(|e: EntryView| entry_line(e)) =~= d.map_values(
            |e: EntryView| entry_line(e),
        ).push(line));
    }
}

proof fn lemma_parse_entry_line(e: EntryView)
    requires
        clean_key(e.0),
        clean_value(e.1),
    ensures
        parse_config_line(entry_line(e)) == Some(e),
{
    let (k, v) = e;
    let l = entry_line(e);
    let n = k.len() as int;
    assert(l[n] == '=');
    assert(forall|j: int| 0 <= j < n ==> l[j] == k[j]);
    assert(forall|j: int| 0 <= j < v.len() ==> l[n + 1 + j] == v[j]);
    assert(trim_start(l) == l);
    assert(l.last() == if v.len() > 0 { v.last() } else { '=' });
    assert(trim_end(l) == l);
    assert(trim(l) == l);
    assert(has_char(l, '='));
    let f = first_position(l, '=');
    assert(0 <= f < l.len() && l[f] == '=' && forall|j: int| 0 <= j < f ==> l[j] != '=');
    assert(f == n) by {
        if f < n {
            assert(k[f] == '=');
        }
        if n < f {
            assert(l[n] != '=');
        }
    }
    assert(l.subrange(0, n) =~= k);
    assert(l.subrange(n + 1, l.len() as int) =~= v);
    if k.len() > 0 {
        assert(trim_start(k) == k);
        assert(trim_end(k) == k);
    } else {
        assert(trim_start(k) == k);
        assert(trim_end(k) == k);
    }
    assert(trim_start(v) == v);
    assert(trim_end(v) == v);
}

proof fn lemma_config_of_entry_lines(es: Seq<EntryView>)
    requires
        clean_entries(es),
    ensures
        config_of_lines(es.map_values(|e: EntryView| entry_line(e))) == entries_map(es),
    decreases es.len(),
{
    if es.len() > 0 {
        let d = es.drop_last();
        assert(clean_entries(d)) by {
            assert forall|i: int| 0 <= i < d.len() implies clean_key(#[trigger] d[i].0) && clean_value(d[i].1) by {
                assert(d[i] == es[i]);
            }
        }
        lemma_config_of_entry_lines(d);
        let ls = es.map_values(|e: EntryView| entry_line(e));
        assert(ls.drop_last() =~= d.map_values(|e: EntryView| entry_line(e)));
        assert(clean_key(es[es.len() - 1].0));
        lemma_parse_entry_line(es.last());
    }
}

/// Law: the text written for clean entries reads back as the map those
/// entries make.
pub proof fn law_written_config_reads_back(es: Seq<EntryView>)
    requires
        clean_entries(es),
    ensures
        config_of_text(render_entries(es)) == entries_map(es),
{
    lemma_split_rendered(es);
    let ls = es.map_values(|e: EntryView| entry_line(e));
    lemma_config_of_entry_lines(es);
    assert(lines_of(render_entries(es)) == ls.push(Seq::<char>::empty()));
    assert(ls.push(Seq::<char>::empty()).drop_last() =~= ls);
    assert(trim(Seq::<char>::empty()) == Seq::<char>::empty());
}

proof fn lemma_first_position(t: Seq<char>, c: char)
    requires
        has_char(t, c),
    ensures
        0 <= first_position(t, c) < t.len(),
        t[first_position(t, c)] == c,
        forall|j: int| 0 <= j < first_position(t, c) ==> t[j] != c,
    decreases t.len(),
{
    if t[0] == c {
        assert(0 <= 0 < t.len() && t[0] == c && forall|j: int| 0 <= j < 0 ==> t[j] != c);
    } else {
        let d = t.drop_first();
        let w = choose|i: int| 0 <= i < t.len() && t[i] == c;
        assert(d[w - 1] == c);
        lemma_first_position(d, c);
        let q = first_position(d, c) + 1;
        assert(forall|j: int| 0 < j < q ==> t[j] == d[j - 1]);
        assert(0 <= q < t.len() && t[q] == c && forall|j: int| 0 <= j < q ==> t[j] != c);
    }
}

proof fn lemma_parsed_line_clean(l: Seq<char>)
    requires
        !has_char(l, '\n'),
        parse_config_line(l) is Some,
    ensures
        match parse_config_line(l) {
            Some(e) => clean_key(e.0) && clean_value(e.1),
            None => true,
        },
{
    let (a, b) = lemma_trim_shape(l);
    let t = trim(l);
    lemma_subrange_lacks(l, a, b, '\n');
    lemma_first_position(t, '=');
    let p = first_position(t, '=');
    let k0 = t.subrange(0, p);
    let v0 = t.subrange(p + 1, t.len() as int);
    lemma_subrange_lacks(t, 0, p, '\n');
    lemma_subrange_lacks(t, p + 1, t.len() as int, '\n');
    assert(!has_char(k0, '=')) by {
        assert forall|i: int| 0 <= i < k0.len() implies k0[i] != '=' by {
            assert(k0[i] == t[i]);
        }
    }
    let (ka, kb) = lemma_trim_shape(k0);
    let (va, vb) = lemma_trim_shape(v0);
    lemma_subrange_lacks(k0, ka, kb, '=');
    lemma_subrange_lacks(k0, ka, kb, '\n');
    lemma_subrange_lacks(v0, va, vb, '\n');
    let key = trim(k0);
    if key.len() > 0 {
        assert(k0.len() > 0);
        assert(k0[0] == t[0]);
        assert(trim_start(k0) == k0);
        lemma_trim_end_shape(k0);
        assert(key[0] == k0[0]);
    }
}

proof fn lemma_lines_lack_newline(t: Seq<char>)
    ensures
        forall|i: int| 0 <= i < split_acc(t).0.len() ==> !has_char(#[trigger] split_acc(t).0[i], '\n'),
        !has_char(split_acc(t).1, '\n'),
    decreases t.len(),
{
    if t.len() > 0 {
        lemma_lines_lack_newline(t.drop_last());
        let acc = split_acc(t.drop_last());
        if t.last() != '\n' {
            assert forall|i: int| 0 <= i < acc.1.push(t.last()).len() implies acc.1.push(t.last())[i] != '\n' by {
                if i < acc.1.len() {
                    assert(acc.1.push(t.last())[i] == acc.1[i]);
                }
            }
        } else {
            assert forall|i: int| 0 <= i < acc.0.push(acc.1).len() implies !has_char(#[trigger] acc.0.push(acc.1)[i], '\n') by {
                if i < acc.0.len() {
                    assert(acc.0.push(acc.1)[i] == acc.0[i]);
                }
            }
        }
    }
}

proof fn lemma_config_of_lines_clean(ls: Seq<Seq<char>>)
    requires
        forall|i: int| 0 <= i < ls.len() ==> !has_char(#[trigger] ls[i], '\n'),
    ensures
        forall|k: Seq<char>|
            #[trigger] config_of_lines(ls).contains_key(k) ==> clean_key(k) && clean_value(
                config_of_lines(ls)[k],
            ),
    decreases ls.len(),
{
    if ls.len() > 0 {
        let d = ls.drop_last();
        assert forall|i: int| 0 <= i < d.len() implies !has_char(#[trigger] d[i], '\n') by {
            assert(d[i] == ls[i]);
        }
        lemma_config_of_lines_clean(d);
        assert(!has_char(ls[ls.len() - 1], '\n'));
        let m = config_of_lines(d);
        match parse_config_line(ls.last()) {
            Some(e) => {
                lemma_parsed_line_clean(ls.last());
                assert forall|k: Seq<char>| #[trigger] m.insert(e.0, e.1).contains_key(k) implies clean_key(k)
                    && clean_value(m.insert(e.0, e.1)[k]) by {
                    if k != e.0 {
                        assert(m.contains_key(k));
                    }
                }
            },
            None => {},
        }
    }
}

/// Law: every key and value that a configuration file gives is clean, so a
/// configuration that was read can be written and read back unchanged.
pub proof fn law_read_config_is_clean(t: Seq<char>)
    ensures
        forall|k: Seq<char>|
            #[trigger] config_of_text(t).contains_key(k) ==> clean_key(k) && clean_value(
                config_of_text(t)[k],
            ),
{
    lemma_lines_lack_newline(t);
    let acc = split_acc(t);
    let ls = lines_of(t);
    assert forall|i: int| 0 <= i < ls.len() implies !has_char(#[trigger] ls[i], '\n') by {
        if i < acc.0.len() {
            assert(ls[i] == acc.0[i]);
        }
    }
    lemma_config_of_lines_clean(ls);
}

proof fn lemma_set_keeps_clean(es: Seq<EntryView>, k: Seq<char>, v: Seq<char>)
    requires
        clean_entries(es),
        clean_key(k),
        clean_value(v),
    ensures
        clean_entries(set_entries(es, k, v)),
{
    let n = set_entries(es, k, v);
    assert forall|i: int| 0 <= i < n.len() implies clean_key(#[trigger] n[i].0) && clean_value(n[i].1) by {
        if has_key(es, k) {
            let j = key_index(es, k);
            assert(0 <= j < es.len());
            if i != j {
                assert(n[i] == es[i]);
                assert(clean_key(es[i].0));
            } else {
                assert(n[i] == (k, v));
            }
        } else if i < es.len() {
            assert(n[i] == es[i]);
            assert(clean_key(es[i].0));
        } else {
            assert(n[i] == (k, v));
        }
    }
}

proof fn lemma_remove_keeps_clean(es: Seq<EntryView>, k: Seq<char>)
    requires
        clean_entries(es),
    ensures
        clean_entries(remove_entries(es, k)),
{
    let n = remove_entries(es, k);
    if has_key(es, k) {
        let j = key_index(es, k);
        assert forall|i: int| 0 <= i < n.len() implies clean_key(#[trigger] n[i].0) && clean_value(n[i].1) by {
            let i2 = if i < j { i } else { i + 1 };
            assert(0 <= j < es.len());
            assert(n[i] == es[i2]);
            assert(clean_key(es[i2].0));
        }
    }
}

/// Law: after `set_config` of a clean key and value on a clean store, the
/// written file reads back as the old configuration with that key set; in
/// particular `get_config` then gives the value that was set.
pub proof fn law_set_config_reads_back(store: ConfigStore, k: Seq<char>, v: Seq<char>)
    requires
        store.wf(),
        clean_entries(store.entries_view()),
        clean_key(k),
        clean_value(v),
    ensures
        config_of_text(render_entries(set_entries(store.entries_view(), k, v))) == store@.insert(k, v),
        config_of_text(render_entries(set_entries(store.entries_view(), k, v)))[k] == v,
{
    lemma_set_entries(store.entries_view(), k, v);
    lemma_set_keeps_clean(store.entries_view(), k, v);
    law_written_config_reads_back(set_entries(store.entries_view(), k, v));
}

/// Law: after `delete_config` on a clean store, the written file reads back as
/// the old configuration without that key; `get_config` then gives nothing.
pub proof fn law_delete_config_reads_back(store: ConfigStore, k: Seq<char>)
    requires
        store.wf(),
        clean_entries(store.entries_view()),
    ensures
        config_of_text(render_entries(remove_entries(store.entries_view(), k))) == store@.remove(k),
        !config_of_text(render_entries(remove_entries(store.entries_view(), k))).contains_key(k),
{
    lemma_remove_entries(store.entries_view(), k);
    lemma_remove_keeps_clean(store.entries_view(), k);
    law_written_config_reads_back(remove_entries(store.entries_view(), k));
}

// ---------------------------------------------------------------------------
// The configuration files of modules
// ---------------------------------------------------------------------------

/// Directory that holds one configuration directory per module.
pub const MODULE_CONFIG_DIR: &'static str = "/data/adb/module_configs";

/// Name of the file of configuration that persists across boots.
pub const PERSIST_CONFIG: &'static str = "persist.config";

/// Name of the file of configuration that lasts until the next boot.
pub const TEMP_CONFIG: &'static str = "tmp.config";

/// The configuration directory of module `module_id`.
pub fn get_module_config_dir(module_id: &str) -> (r: String)
    ensures
        r@ == MODULE_CONFIG_DIR@ + seq!['/'] + module_id@,
{
    let mut r = MODULE_CONFIG_DIR.to_owned();
    push_char(&mut r, '/');
    r.append(module_id);
    r
}

/// The file name of the temporary or the persistent configuration.
pub open spec fn config_file_name(temp: bool) -> Seq<char> {
    if temp {
        TEMP_CONFIG@
    } else {
        PERSIST_CONFIG@
    }
}

/// The configuration file of module `module_id`, temporary or persistent.
pub fn config_file_path(module_id: &str, temp: bool) -> (r: String)
    ensures
        r@ == join_path(MODULE_CONFIG_DIR@ + seq!['/'] + module_id@, config_file_name(temp)),
{
    let dir = get_module_config_dir(module_id);
    let file = if temp {
        TEMP_CONFIG
    } else {
        PERSIST_CONFIG
    };
    join(dir.as_str(), file)
}

/// The value of `key` in a module's configuration, read from its file.
pub fn get_config(configs: &ConfigStore, key: &str) -> (r: Option<String>)
    requires
        configs.wf(),
    ensures
        match r {
            Some(v) => configs@.contains_key(key@) && v@ == configs@[key@],
            None => !configs@.contains_key(key@),
        },
{
    configs.get(key)
}

/// Sets `key` to `value` in a module's configuration, before it is written.
pub fn set_config(configs: &mut ConfigStore, key: &str, value: &str)
    requires
        old(configs).wf(),
    ensures
        final(configs).wf(),
        final(configs).entries_view() == set_entries(old(configs).entries_view(), key@, value@),
        final(configs)@ == old(configs)@.insert(key@, value@),
{
    configs.set(key, value);
}

/// Removes `key` from a module's configuration, before it is written.
pub fn delete_config(configs: &mut ConfigStore, key: &str)
    requires
        old(configs).wf(),
    ensures
        final(configs).wf(),
        final(configs).entries_view() == remove_entries(old(configs).entries_view(), key@),
        final(configs)@ == old(configs)@.remove(key@),
{
    configs.remove(key);
}

/// All configuration of a module: the persistent entries, overridden by the
/// temporary ones.
pub fn list_configs(persist: &ConfigStore, temp: &ConfigStore) -> (r: ConfigStore)
    requires
        persist.wf(),
        temp.wf(),
    ensures
        r.wf(),
        r@ == persist@.union_prefer_right(temp@),
{
    let mut r = ConfigStore::new();
    let p = persist.to_pairs();
    let t = temp.to_pairs();
    let ghost pv = persist.entries_view();
    let ghost tv = temp.entries_view();
    let mut i: usize = 0;
    while i < p.len()
        invariant
            r.wf(),
            i <= p@.len(),
            p@.len() == pv.len(),
            forall|j: int| 0 <= j < p@.len() ==> (#[trigger] p@[j]).0@ == pv[j].0 && p@[j].1@ == pv[j].1,
            r@ == entries_map(pv.take(i as int)),
        decreases p.len() - i,
    {
        assert(pv.take(i + 1).drop_last() =~= pv.take(i as int));
        r.set(p[i].0.as_str(), p[i].1.as_str());
        i = i + 1;
    }
    assert(pv.take(pv.len() as int) =~= pv);
    let mut j: usize = 0;
    while j < t.len()
        invariant
            r.wf(),
            j <= t@.len(),
            t@.len() == tv.len(),
            forall|x: int| 0 <= x < t@.len() ==> (#[trigger] t@[x]).0@ == tv[x].0 && t@[x].1@ == tv[x].1,
            r@ == persist@.union_prefer_right(entries_map(tv.take(j as int))),
        decreases t.len() - j,
    {
        assert(tv.take(j + 1).drop_last() =~= tv.take(j as int));
        r.set(t[j].0.as_str(), t[j].1.as_str());
        assert(r@ =~= persist@.union_prefer_right(entries_map(tv.take(j + 1))));
        j = j + 1;
    }
    assert(tv.take(tv.len() as int) =~= tv);
    r
}

/// Law: in the listed configuration a temporary value overrides the
/// persistent one, and a key without a temporary value keeps its persistent
/// value.
pub proof fn law_temp_overrides_persist(
    persist: Map<Seq<char>, Seq<char>>,
    temp: Map<Seq<char>, Seq<char>>,
    k: Seq<char>,
)
    ensures
        temp.contains_key(k) ==> persist.union_prefer_right(temp)[k] == temp[k],
        !temp.contains_key(k) ==> (persist.union_prefer_right(temp).contains_key(k)
            == persist.contains_key(k)),
        !temp.contains_key(k) && persist.contains_key(k) ==> persist.union_prefer_right(temp)[k]
            == persist[k],
{
}

/// An entry of a directory listing: its name and whether it is a directory.
pub struct DirEntry {
    pub name: String,
    pub is_dir: bool,
}

/// The temporary configuration files of the module directories among `es`.
pub open spec fn temp_config_paths(es: Seq<DirEntry>) -> Seq<Seq<char>>
    decreases es.len(),
{
    if es.len() == 0 {
        Seq::empty()
    } else {
        let rest = temp_config_paths(es.drop_last());
        let e = es.last();
        if e.is_dir {
            rest.push(join_path(join_path(MODULE_CONFIG_DIR@, e.name@), TEMP_CONFIG@))
        } else {
            rest
        }
    }
}

/// The temporary configuration files to delete at boot, given the listing
/// of the configuration directory: one per module directory in it.
pub fn clear_temp_configs(entries: &Vec<DirEntry>) -> (r: Vec<String>)
    ensures
        r.deep_view() == temp_config_paths(entries@),
{
    let mut r: Vec<String> = Vec::new();
    let mut i: usize = 0;
    while i < entries.len()
        invariant
            i <= entries@.len(),
            r.deep_view() == temp_config_paths(entries@.take(i as int)),
        decreases entries.len() - i,
    {
        assert(entries@.take(i + 1).drop_last() =~= entries@.take(i as int));
        assert(entries@.take(i + 1).last() == entries@[i as int]);
        if entries[i].is_dir {
            let dir = join(MODULE_CONFIG_DIR, entries[i].name.as_str());
            let path = join(dir.as_str(), TEMP_CONFIG);
            let ghost before = r.deep_view();
            r.push(path);
            assert(r.deep_view() =~= before.push(path@));
        }
        i = i + 1;
    }
    assert(entries@.take(entries@.len() as int) =~= entries@);
    r
}

} // verus!
