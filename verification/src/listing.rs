//! Directory listings: the entries of a directory, derived from the key list.
//!
//! A directory lists one entry for each name right below it: a directory
//! where some object lives strictly under that name, a file where the name is
//! the last part of an object's path and nothing lives under it. The entries
//! are sorted by name, so a listing depends on the set of keys alone.

use vstd::prelude::*;
use crate::inode::{id_of, InodeTable};
use crate::namespace::{
    has_object_under, in_namespace, is_object, key_path, key_path_chars,
    lemma_has_object_under_by_set, lemma_has_object_under_push, lemma_is_object_by_set,
    lemma_is_object_push, lives_under, root, views,
};
use crate::text::{
    chars_eq, chars_lt, chars_of, joined, lemma_lex_lt_irreflexive, lemma_lex_lt_total,
    lemma_lex_lt_transitive, lex_lt, starts_with, string_of, sub_chars,
};

verus! {

/// What an entry of the namespace is.
#[derive(Debug, Clone, Copy, PartialEq, Eq, Structural)]
pub enum FileKind {
    File,
    Directory,
}

/// One entry of a directory listing.
#[derive(Debug, Clone)]
pub struct DirEntry {
    pub name: String,
    pub ino: u64,
    pub kind: FileKind,
}

/// A directory entry as plain values.
pub struct DirEntryView {
    pub name: Seq<char>,
    pub ino: u64,
    pub kind: FileKind,
}

impl View for DirEntry {
    type V = DirEntryView;

    open spec fn view(&self) -> DirEntryView {
        DirEntryView { name: self.name@, ino: self.ino, kind: self.kind }
    }
}

/// The entries of a listing as plain values.
pub open spec fn entry_views(entries: Seq<DirEntry>) -> Seq<DirEntryView> {
    Seq::new(entries.len(), |i: int| entries[i]@)
}

/// What stands before a name in the paths right below `dir`.
pub open spec fn dir_prefix(dir: Seq<char>) -> Seq<char> {
    if dir == root() {
        dir
    } else {
        dir + seq!['/']
    }
}

/// The path of the entry `name` of the directory `dir`.
pub open spec fn child_path(dir: Seq<char>, name: Seq<char>) -> Seq<char> {
    dir_prefix(dir) + name
}

/// A name is one non-empty part of a path: it holds no `/`.
pub open spec fn valid_name(name: Seq<char>) -> bool {
    &&& name.len() > 0
    &&& forall|i: int| 0 <= i < name.len() ==> name[i] != '/'
}

/// The directory `dir` lists an entry `name`.
pub open spec fn listed(keys: Seq<Seq<char>>, dir: Seq<char>, name: Seq<char>) -> bool {
    &&& valid_name(name)
    &&& (is_object(keys, child_path(dir, name)) || has_object_under(keys, child_path(dir, name)))
}

/// The kind of the entry at `path`: a directory where an object lives under
/// it, a file otherwise.
pub open spec fn kind_of(keys: Seq<Seq<char>>, path: Seq<char>) -> FileKind {
    if has_object_under(keys, path) {
        FileKind::Directory
    } else {
        FileKind::File
    }
}

/// The names of `entries` are in strictly ascending order.
pub open spec fn sorted_entries(entries: Seq<DirEntryView>) -> bool {
    forall|i: int, j: int| 0 <= i < j < entries.len() ==> lex_lt(entries[i].name, entries[j].name)
}

/// `entries` holds an entry named `name`.
pub open spec fn names_entry(entries: Seq<DirEntryView>, name: Seq<char>) -> bool {
    exists|i: int| 0 <= i < entries.len() && (#[trigger] entries[i]).name == name
}

/// `entries` is the listing of `dir`: sorted by name, one entry for each name
/// that the directory lists, each with its kind and the identifier of its
/// path in `table`.
pub open spec fn is_listing(
    keys: Seq<Seq<char>>,
    table: Seq<Seq<char>>,
    dir: Seq<char>,
    entries: Seq<DirEntryView>,
) -> bool {
    &&& sorted_entries(entries)
    &&& forall|name: Seq<char>| #[trigger]
        names_entry(entries, name) == listed(keys, dir, name)
    &&& forall|i: int|
        0 <= i < entries.len() ==> {
            &&& (#[trigger] entries[i]).kind == kind_of(keys, child_path(dir, entries[i].name))
            &&& id_of(table, child_path(dir, entries[i].name)) == Some(entries[i].ino)
        }
}

/// The name and the kind of each entry.
pub open spec fn names_and_kinds(entries: Seq<DirEntryView>) -> Seq<(Seq<char>, FileKind)> {
    Seq::new(entries.len(), |i: int| (entries[i].name, entries[i].kind))
}

/// Two sorted listings that name the same entries name them at the same
/// positions, as far as position `n`.
proof fn lemma_sorted_names_agree(a: Seq<DirEntryView>, b: Seq<DirEntryView>, n: int)
    requires
        sorted_entries(a),
        sorted_entries(b),
        forall|name: Seq<char>| #[trigger] names_entry(a, name) == names_entry(b, name),
        0 <= n <= a.len(),
    ensures
        n <= b.len(),
        forall|i: int| 0 <= i < n ==> (#[trigger] a[i]).name == b[i].name,
    decreases n,
{
    if n > 0 {
        lemma_sorted_names_agree(a, b, n - 1);
        let k = n - 1;
        assert(names_entry(a, a[k].name));
        let j = choose|j: int| 0 <= j < b.len() && (#[trigger] b[j]).name == a[k].name;
        if j < k {
            assert(a[j].name == b[j].name);
            lemma_lex_lt_irreflexive(a[k].name);
        }
        if j > k {
            assert(names_entry(a, b[k].name));
            let m = choose|m: int| 0 <= m < a.len() && (#[trigger] a[m]).name == b[k].name;
            if m < k {
                lemma_lex_lt_irreflexive(b[k].name);
            } else if m > k {
                lemma_lex_lt_transitive(a[k].name, b[k].name, a[k].name);
                lemma_lex_lt_irreflexive(a[k].name);
            }
        }
    }
}

/// A directory has one listing: two listings of the same directory over the
/// same keys and the same table are equal.
pub proof fn law_listing_is_unique(
    keys: Seq<Seq<char>>,
    table: Seq<Seq<char>>,
    dir: Seq<char>,
    a: Seq<DirEntryView>,
    b: Seq<DirEntryView>,
)
    requires
        is_listing(keys, table, dir, a),
        is_listing(keys, table, dir, b),
    ensures
        a == b,
{
    lemma_sorted_names_agree(a, b, a.len() as int);
    lemma_sorted_names_agree(b, a, b.len() as int);
}

/// The listing of the directory `dir`.
pub open spec fn listing_of(keys: Seq<Seq<char>>, table: Seq<Seq<char>>, dir: Seq<char>) -> Seq<
    DirEntryView,
> {
    choose|entries: Seq<DirEntryView>| is_listing(keys, table, dir, entries)
}

/// A listing of a directory is the listing of that directory.
pub proof fn lemma_listing_of(
    keys: Seq<Seq<char>>,
    table: Seq<Seq<char>>,
    dir: Seq<char>,
    entries: Seq<DirEntryView>,
)
    requires
        is_listing(keys, table, dir, entries),
    ensures
        listing_of(keys, table, dir) == entries,
{
    law_listing_is_unique(keys, table, dir, listing_of(keys, table, dir), entries);
}

/// The names and kinds of a listing depend on the set of keys alone: two key
/// lists that hold the same keys, in whatever order and however often, give
/// every directory the same names and kinds, in the same sorted order.
pub proof fn law_listing_ignores_key_order(
    keys_a: Seq<Seq<char>>,
    keys_b: Seq<Seq<char>>,
    table_a: Seq<Seq<char>>,
    table_b: Seq<Seq<char>>,
    dir: Seq<char>,
    a: Seq<DirEntryView>,
    b: Seq<DirEntryView>,
)
    requires
        keys_a.to_set() == keys_b.to_set(),
        is_listing(keys_a, table_a, dir, a),
        is_listing(keys_b, table_b, dir, b),
    ensures
        names_and_kinds(a) == names_and_kinds(b),
        sorted_entries(a),
{
    assert forall|name: Seq<char>| #[trigger] names_entry(a, name) == names_entry(b, name) by {
        lemma_is_object_by_set(keys_a, keys_b, child_path(dir, name));
        lemma_has_object_under_by_set(keys_a, keys_b, child_path(dir, name));
    }
    lemma_sorted_names_agree(a, b, a.len() as int);
    lemma_sorted_names_agree(b, a, b.len() as int);
    assert forall|i: int| 0 <= i < a.len() implies names_and_kinds(a)[i] == names_and_kinds(b)[i] by {
        lemma_has_object_under_by_set(keys_a, keys_b, child_path(dir, a[i].name));
    }
}

/// The position of the first `/` of `s` at or after `from`, or the length of
/// `s` if there is none.
pub open spec fn first_slash(s: Seq<char>, from: int) -> int
    decreases s.len() - from,
{
    if from < 0 || from >= s.len() {
        s.len() as int
    } else if s[from] == '/' {
        from
    } else {
        first_slash(s, from + 1)
    }
}

proof fn lemma_first_slash(s: Seq<char>, from: int)
    requires
        0 <= from <= s.len(),
    ensures
        from <= first_slash(s, from) <= s.len(),
        forall|j: int| from <= j < first_slash(s, from) ==> s[j] != '/',
        first_slash(s, from) < s.len() ==> s[first_slash(s, from)] == '/',
    decreases s.len() - from,
{
    if from < s.len() && s[from] != '/' {
        lemma_first_slash(s, from + 1);
    }
}

proof fn lemma_first_slash_is(s: Seq<char>, from: int, at: int)
    requires
        0 <= from <= at <= s.len(),
        forall|j: int| from <= j < at ==> s[j] != '/',
        at < s.len() ==> s[at] == '/',
    ensures
        first_slash(s, from) == at,
    decreases s.len() - from,
{
    if from < at {
        lemma_first_slash_is(s, from + 1, at);
    }
}

/// The entry that the object at path `p` gives to the directory whose paths
/// begin with `pre`: its name, and whether it is a directory. An object
/// elsewhere gives none, nor does an empty name, nor a name with nothing
/// after its `/`.
pub open spec fn child_of(p: Seq<char>, pre: Seq<char>) -> Option<(Seq<char>, bool)> {
    let e = first_slash(p, pre.len() as int);
    if !pre.is_prefix_of(p) || e == pre.len() {
        None
    } else if e == p.len() {
        Some((p.subrange(pre.len() as int, e), false))
    } else if e + 1 < p.len() {
        Some((p.subrange(pre.len() as int, e), true))
    } else {
        None
    }
}

/// What `child_of` finds is a name.
proof fn lemma_child_of_is_name(p: Seq<char>, pre: Seq<char>)
    ensures
        child_of(p, pre) matches Some(c) ==> valid_name(c.0),
{
    if pre.is_prefix_of(p) {
        lemma_first_slash(p, pre.len() as int);
    }
}

/// `child_of` finds exactly the entry whose path the object lives under, or
/// is.
proof fn lemma_child_of(p: Seq<char>, pre: Seq<char>, name: Seq<char>)
    requires
        valid_name(name),
    ensures
        lives_under(p, pre + name) <==> child_of(p, pre) == Some((name, true)),
        p == pre + name <==> child_of(p, pre) == Some((name, false)),
{
    let c = pre + name;
    let n = pre.len() as int;
    if lives_under(p, c) {
        assert forall|j: int| 0 <= j < c.len() implies p[j] == c[j] by {}
        assert(p.subrange(n, c.len() as int) =~= name);
    }
    if p == c {
        assert(p.subrange(n, c.len() as int) =~= name);
    }
    if pre.is_prefix_of(p) {
        lemma_first_slash(p, n);
        if child_of(p, pre) == Some((name, true)) {
            assert(p.subrange(0, c.len() as int) =~= c);
        }
        if child_of(p, pre) == Some((name, false)) {
            assert(p =~= c);
        }
    }
}

/// Adding a key to the list adds the entry that its object gives to the
/// directory, and nothing else.
proof fn lemma_listed_push(keys: Seq<Seq<char>>, key: Seq<char>, dir: Seq<char>, name: Seq<char>)
    ensures
        listed(keys.push(key), dir, name) == (listed(keys, dir, name) || (child_of(
            key_path(key),
            dir_prefix(dir),
        ) matches Some(c) && c.0 == name)),
        (valid_name(name) && has_object_under(keys.push(key), child_path(dir, name))) == ((
        valid_name(name) && has_object_under(keys, child_path(dir, name))) || child_of(
            key_path(key),
            dir_prefix(dir),
        ) == Some((name, true))),
{
    let c = child_path(dir, name);
    let p = key_path(key);
    let pre = dir_prefix(dir);
    lemma_has_object_under_push(keys, key, c);
    lemma_is_object_push(keys, key, c);
    lemma_child_of_is_name(p, pre);
    if valid_name(name) {
        lemma_child_of(p, pre, name);
    }
}

/// An entry of a listing under construction.
pub struct Child {
    pub name: Vec<char>,
    pub is_dir: bool,
}

/// The names of `c` are in strictly ascending order.
pub open spec fn sorted_children(c: Seq<Child>) -> bool {
    forall|i: int, j: int| 0 <= i < j < c.len() ==> lex_lt(c[i].name@, c[j].name@)
}

/// `c` holds an entry named `name`.
pub open spec fn has_child(c: Seq<Child>, name: Seq<char>) -> bool {
    exists|i: int| 0 <= i < c.len() && (#[trigger] c[i]).name@ == name
}

/// `c` holds a directory named `name`.
pub open spec fn has_dir_child(c: Seq<Child>, name: Seq<char>) -> bool {
    exists|i: int| 0 <= i < c.len() && (#[trigger] c[i]).name@ == name && c[i].is_dir
}

/// `c` holds the entries that `dir` lists, sorted by name.
pub open spec fn children_of(keys: Seq<Seq<char>>, dir: Seq<char>, c: Seq<Child>) -> bool {
    &&& sorted_children(c)
    &&& forall|name: Seq<char>| #[trigger] has_child(c, name) == listed(keys, dir, name)
    &&& forall|name: Seq<char>| #[trigger]
        has_dir_child(c, name) == (valid_name(name) && has_object_under(
            keys,
            child_path(dir, name),
        ))
}

/// In a sorted list an entry is a directory exactly when the list holds a
/// directory of its name.
proof fn lemma_sorted_child_flag(c: Seq<Child>, i: int)
    requires
        sorted_children(c),
        0 <= i < c.len(),
    ensures
        c[i].is_dir == has_dir_child(c, c[i].name@),
        has_child(c, c[i].name@),
{
    if has_dir_child(c, c[i].name@) {
        lemma_lex_lt_irreflexive(c[i].name@);
    }
}

/// The end of the name that the object at `p` gives to the directory whose
/// paths begin with `pre`, and whether the name is a directory.
fn child_in(p: &Vec<char>, pre: &Vec<char>) -> (r: Option<(usize, bool)>)
    ensures
        match r {
            Some((e, d)) => pre.len() < e <= p.len() && child_of(p@, pre@) == Some(
                (p@.subrange(pre.len() as int, e as int), d),
            ),
            None => child_of(p@, pre@) is None,
        },
{
    if !starts_with(p, pre) {
        return None;
    }
    let n = pre.len();
    let mut e: usize = n;
    while e < p.len() && p[e] != '/'
        invariant
            n == pre.len(),
            n <= e <= p.len(),
            first_slash(p@, n as int) == first_slash(p@, e as int),
        decreases p.len() - e,
    {
        e = e + 1;
    }
    if e == n {
        None
    } else if e == p.len() {
        Some((e, false))
    } else if p.len() - e > 1 {
        Some((e, true))
    } else {
        None
    }
}

/// Puts an entry into a sorted list, at the place of its name. Where the
/// name is there already the list keeps one entry of it, a directory if
/// either is one. The place is sought from the end: keys mostly come in
/// order, and then it is the end.
fn insert_child(children: &mut Vec<Child>, name: Vec<char>, is_dir: bool)
    requires
        sorted_children(old(children)@),
    ensures
        sorted_children(final(children)@),
        final(children)@.len() <= old(children)@.len() + 1,
        forall|nm: Seq<char>| #[trigger]
            has_child(final(children)@, nm) == (has_child(old(children)@, nm) || nm == name@),
        forall|nm: Seq<char>| #[trigger]
            has_dir_child(final(children)@, nm) == (has_dir_child(old(children)@, nm) || (nm
                == name@ && is_dir)),
{
    let mut pos: usize = children.len();
    while pos > 0 && chars_lt(&name, &children[pos - 1].name)
        invariant
            pos <= children.len(),
            children@ == old(children)@,
            forall|i: int| pos <= i < children.len() ==> lex_lt(name@, #[trigger] children@[i].name@),
        decreases pos,
    {
        pos = pos - 1;
    }
    let ghost before = children@;
    let ghost new_name = name@;
    if pos > 0 && chars_eq(&children[pos - 1].name, &name) {
        let at: usize = pos - 1;
        if is_dir && !children[at].is_dir {
            children.set(at, Child { name, is_dir: true });
        }
        proof {
            let after = children@;
            assert forall|nm: Seq<char>| #[trigger]
                has_child(after, nm) == (has_child(before, nm) || nm == new_name) by {
                if has_child(before, nm) {
                    let i = choose|i: int|
                        0 <= i < before.len() && (#[trigger] before[i]).name@ == nm;
                    assert(after[i].name@ == nm);
                }
            }
            assert forall|nm: Seq<char>| #[trigger]
                has_dir_child(after, nm) == (has_dir_child(before, nm) || (nm == new_name
                    && is_dir)) by {
                if has_dir_child(before, nm) {
                    let i = choose|i: int|
                        0 <= i < before.len() && (#[trigger] before[i]).name@ == nm
                            && before[i].is_dir;
                    assert(after[i].name@ == nm && after[i].is_dir);
                }
                if nm == new_name && is_dir {
                    assert(after[at as int].name@ == nm && after[at as int].is_dir);
                }
            }
        }
    } else {
        proof {
            assert forall|i: int| 0 <= i < pos implies lex_lt(
                #[trigger] before[i].name@,
                new_name,
            ) by {
                let last = before[pos - 1].name@;
                lemma_lex_lt_total(last, new_name);
                if i < pos - 1 {
                    lemma_lex_lt_transitive(before[i].name@, last, new_name);
                }
            }
        }
        children.insert(pos, Child { name, is_dir });
        proof {
            let after = children@;
            assert(after[pos as int].name@ == new_name);
            assert forall|nm: Seq<char>| #[trigger]
                has_child(after, nm) == (has_child(before, nm) || nm == new_name) by {
                if has_child(before, nm) {
                    let i = choose|i: int|
                        0 <= i < before.len() && (#[trigger] before[i]).name@ == nm;
                    if i < pos {
                        assert(after[i].name@ == nm);
                    } else {
                        assert(after[i + 1].name@ == nm);
                    }
                }
            }
            assert forall|nm: Seq<char>| #[trigger]
                has_dir_child(after, nm) == (has_dir_child(before, nm) || (nm == new_name
                    && is_dir)) by {
                if has_dir_child(before, nm) {
                    let i = choose|i: int|
                        0 <= i < before.len() && (#[trigger] before[i]).name@ == nm
                            && before[i].is_dir;
                    if i < pos {
                        assert(after[i].name@ == nm && after[i].is_dir);
                    } else {
                        assert(after[i + 1].name@ == nm && after[i + 1].is_dir);
                    }
                }
            }
        }
    }
}

/// The characters that stand before a name in the paths right below `dir`.
pub fn dir_prefix_chars(dir: &Vec<char>) -> (pre: Vec<char>)
    ensures
        pre@ == dir_prefix(dir@),
{
    let mut pre = sub_chars(dir, 0, dir.len());
    if dir.len() == 1 && dir[0] == '/' {
        assert(dir@ =~= root());
    } else {
        pre.push('/');
    }
    pre
}

/// The names that the directory `dir` lists, sorted, each with its kind.
pub fn list_children(keys: &Vec<String>, dir: &Vec<char>) -> (children: Vec<Child>)
    ensures
        children_of(views(keys@), dir@, children@),
        children.len() <= keys.len(),
{
    let pre = dir_prefix_chars(dir);
    let mut children: Vec<Child> = Vec::new();
    let ghost all = views(keys@);
    let mut n: usize = 0;
    while n < keys.len()
        invariant
            n <= keys.len(),
            all == views(keys@),
            pre@ == dir_prefix(dir@),
            children_of(all.take(n as int), dir@, children@),
            children.len() <= n,
        decreases keys.len() - n,
    {
        let p = key_path_chars(keys[n].as_str());
        let ghost key = all[n as int];
        let ghost before = children@;
        let ghost seen = all.take(n as int);
        assert(all.take(n + 1) =~= seen.push(key));
        match child_in(&p, &pre) {
            Some((e, d)) => {
                let name = sub_chars(&p, pre.len(), e);
                insert_child(&mut children, name, d);
                proof {
                    let after = children@;
                    assert forall|nm: Seq<char>| #[trigger]
                        has_child(after, nm) == listed(seen.push(key), dir@, nm) by {
                        lemma_listed_push(seen, key, dir@, nm);
                    }
                    assert forall|nm: Seq<char>| #[trigger]
                        has_dir_child(after, nm) == (valid_name(nm) && has_object_under(
                            seen.push(key),
                            child_path(dir@, nm),
                        )) by {
                        lemma_listed_push(seen, key, dir@, nm);
                        assert(has_dir_child(before, nm) == (valid_name(nm) && has_object_under(
                            seen,
                            child_path(dir@, nm),
                        )));
                    }
                }
            },
            None => {
                proof {
                    assert forall|nm: Seq<char>| #[trigger]
                        has_child(before, nm) == listed(seen.push(key), dir@, nm) by {
                        lemma_listed_push(seen, key, dir@, nm);
                    }
                    assert forall|nm: Seq<char>| #[trigger]
                        has_dir_child(before, nm) == (valid_name(nm) && has_object_under(
                            seen.push(key),
                            child_path(dir@, nm),
                        )) by {
                        lemma_listed_push(seen, key, dir@, nm);
                    }
                }
            },
        }
        n = n + 1;
    }
    assert(all.take(keys.len() as int) =~= all);
    children
}

/// A copy of a listing.
pub fn clone_entries(entries: &Vec<DirEntry>) -> (copy: Vec<DirEntry>)
    ensures
        entry_views(copy@) == entry_views(entries@),
        copy.len() == entries.len(),
{
    let mut copy: Vec<DirEntry> = Vec::new();
    let mut i: usize = 0;
    while i < entries.len()
        invariant
            i <= entries.len(),
            copy.len() == i,
            forall|k: int| 0 <= k < i ==> (#[trigger] copy@[k])@ == entries@[k]@,
        decreases entries.len() - i,
    {
        let e = &entries[i];
        copy.push(DirEntry { name: e.name.clone(), ino: e.ino, kind: e.kind });
        i = i + 1;
    }
    copy
}

/// The listing of the directory `path`: one entry for each name right below
/// it, sorted by name, a name with an object under it as a directory, any
/// other as a file, each with the identifier that `table` holds for its path.
pub fn list_directory(keys: &Vec<String>, table: &InodeTable, path: &str) -> (entries: Vec<
    DirEntry,
>)
    requires
        table.wf(),
        forall|p: Seq<char>| in_namespace(views(keys@), p) ==> table@.contains(p),
    ensures
        is_listing(views(keys@), table@, path@, entry_views(entries@)),
        entries.len() <= keys.len(),
{
    let dir = chars_of(path);
    let pre = dir_prefix_chars(&dir);
    let children = list_children(keys, &dir);
    let ghost all = views(keys@);
    let mut entries: Vec<DirEntry> = Vec::new();
    let mut i: usize = 0;
    while i < children.len()
        invariant
            i <= children.len(),
            entries.len() == i,
            table.wf(),
            all == views(keys@),
            dir@ == path@,
            pre@ == dir_prefix(dir@),
            children_of(all, dir@, children@),
            forall|p: Seq<char>| in_namespace(all, p) ==> table@.contains(p),
            forall|k: int|
                0 <= k < i ==> {
                    &&& (#[trigger] entries@[k]).name@ == children@[k].name@
                    &&& entries@[k].kind == kind_of(all, child_path(dir@, children@[k].name@))
                    &&& id_of(table@, child_path(dir@, children@[k].name@)) == Some(entries@[k].ino)
                },
        decreases children.len() - i,
    {
        let child = &children[i];
        let target = joined(&pre, &child.name);
        proof {
            lemma_sorted_child_flag(children@, i as int);
            assert(in_namespace(all, target@));
        }
        let kind = if child.is_dir {
            FileKind::Directory
        } else {
            FileKind::File
        };
        if let Some(ino) = table.find_chars(&target) {
            entries.push(DirEntry { name: string_of(&child.name, 0, child.name.len()), ino, kind });
        }
        i = i + 1;
    }
    proof {
        let ev = entry_views(entries@);
        let c = children@;
        assert forall|name: Seq<char>| #[trigger]
            names_entry(ev, name) == listed(all, path@, name) by {
            if has_child(c, name) {
                let k = choose|k: int| 0 <= k < c.len() && (#[trigger] c[k]).name@ == name;
                assert(ev[k].name == name);
            }
        }
    }
    entries
}

} // verus!
