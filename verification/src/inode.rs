//! The inode table: which identifier stands for which path.
//!
//! Identifiers are handed out by a counter that starts at 2; 1 is the root.
//! The table keeps the paths in the order of their identifiers, so the two
//! directions of the mapping cannot disagree: the path with identifier `n`
//! is the one at position `n - 1`. An index by hash finds the position of a
//! path without a walk through the table.

use vstd::prelude::*;
use std::collections::HashMap;
use crate::namespace::root;
use crate::text::{chars_eq, chars_of};

verus! {

broadcast use vstd::std_specs::hash::group_hash_axioms;

/// The identifier of the root directory.
pub const ROOT_INODE: u64 = 1;

/// The first identifier that the counter hands out.
pub const FIRST_DYNAMIC_INODE: u64 = 2;

/// A table is well formed when the root comes first, no path occurs twice
/// and every position has an identifier.
pub open spec fn table_wf(t: Seq<Seq<char>>) -> bool {
    &&& 1 <= t.len() <= u64::MAX
    &&& t[0] == root()
    &&& forall|i: int, j: int| 0 <= i < j < t.len() ==> t[i] != t[j]
}

/// The path that `id` stands for.
pub open spec fn resolve_spec(t: Seq<Seq<char>>, id: u64) -> Option<Seq<char>> {
    if 1 <= id <= t.len() {
        Some(t[id - 1])
    } else {
        None
    }
}

/// The identifier of `path`.
pub open spec fn id_of(t: Seq<Seq<char>>, path: Seq<char>) -> Option<u64> {
    if t.contains(path) {
        Some((t.index_of(path) + 1) as u64)
    } else {
        None
    }
}

/// The table after `path` was given an identifier, if it had none.
pub open spec fn allocate(t: Seq<Seq<char>>, path: Seq<char>) -> Seq<Seq<char>> {
    if t.contains(path) {
        t
    } else {
        t.push(path)
    }
}

/// The table after each path of `paths` was given an identifier, in order.
pub open spec fn allocate_all(t: Seq<Seq<char>>, paths: Seq<Seq<char>>) -> Seq<Seq<char>>
    decreases paths.len(),
{
    if paths.len() == 0 {
        t
    } else {
        allocate_all(allocate(t, paths[0]), paths.drop_first())
    }
}

/// Giving identifiers to one list of paths and then to another is giving
/// them to the two lists joined.
pub proof fn lemma_allocate_all_concat(t: Seq<Seq<char>>, a: Seq<Seq<char>>, b: Seq<Seq<char>>)
    ensures
        allocate_all(t, a + b) == allocate_all(allocate_all(t, a), b),
    decreases a.len(),
{
    if a.len() > 0 {
        assert((a + b).drop_first() =~= a.drop_first() + b);
        lemma_allocate_all_concat(allocate(t, a[0]), a.drop_first(), b);
    }
}

/// Giving identifiers to a list of paths starts with the first.
pub proof fn lemma_allocate_all_first(t: Seq<Seq<char>>, first: Seq<char>, rest: Seq<Seq<char>>)
    ensures
        allocate_all(t, seq![first] + rest) == allocate_all(allocate(t, first), rest),
{
    let all = seq![first] + rest;
    assert(all.drop_first() =~= rest);
}

/// After a path was given an identifier the table holds it, and what it
/// held before.
pub proof fn lemma_allocate_contains(t: Seq<Seq<char>>, path: Seq<char>, other: Seq<char>)
    ensures
        allocate(t, path).contains(other) == (t.contains(other) || other == path),
{
    let u = allocate(t, path);
    if !t.contains(path) {
        assert(u[t.len() as int] == path);
        if t.contains(other) {
            let k = t.index_of(other);
            assert(u[k] == other);
        }
    }
}

/// The value of the counter: the identifier that the next new path gets.
pub open spec fn next_inode(t: Seq<Seq<char>>) -> int {
    (t.len() + 1) as int
}

/// The root has the identifier 1 in every table.
pub proof fn law_root_is_one(t: Seq<Seq<char>>)
    requires
        table_wf(t),
    ensures
        resolve_spec(t, ROOT_INODE) == Some(root()),
        id_of(t, root()) == Some(ROOT_INODE),
{
}

/// The two directions of the mapping are inverse to each other: an
/// identifier resolves to a path exactly when the path has that identifier.
pub proof fn law_mapping_is_bijective(t: Seq<Seq<char>>, id: u64, path: Seq<char>)
    requires
        table_wf(t),
    ensures
        (resolve_spec(t, id) == Some(path)) <==> (id_of(t, path) == Some(id)),
{
    if resolve_spec(t, id) == Some(path) {
        assert(t[t.index_of(path)] == path);
    }
}

/// A path that was given an identifier resolves back from it.
pub proof fn law_allocated_path_resolves(t: Seq<Seq<char>>, path: Seq<char>)
    requires
        table_wf(t),
        t.len() < u64::MAX,
    ensures
        table_wf(allocate(t, path)),
        id_of(allocate(t, path), path) is Some,
        resolve_spec(allocate(t, path), id_of(allocate(t, path), path)->0) == Some(path),
{
    let u = allocate(t, path);
    if !t.contains(path) {
        assert(u[t.len() as int] == path);
    }
}

/// Asking twice for the identifier of a path changes nothing the second
/// time, and gives the same identifier.
pub proof fn law_allocation_is_idempotent(t: Seq<Seq<char>>, path: Seq<char>)
    ensures
        allocate(allocate(t, path), path) == allocate(t, path),
        id_of(allocate(allocate(t, path), path), path) == id_of(allocate(t, path), path),
{
    let u = allocate(t, path);
    if !t.contains(path) {
        assert(u[t.len() as int] == path);
    }
}

/// Identifiers are stable: giving a path an identifier changes the
/// identifier of no other path.
pub proof fn law_identifiers_are_stable(t: Seq<Seq<char>>, path: Seq<char>, other: Seq<char>)
    requires
        table_wf(t),
        t.contains(other),
    ensures
        allocate(t, path).contains(other),
        id_of(allocate(t, path), other) == id_of(t, other),
{
    let u = allocate(t, path);
    if !t.contains(path) {
        assert(u[t.index_of(other)] == other);
        assert(u[u.index_of(other)] == other);
    }
}

/// The string `/`.
pub fn root_string() -> (s: String)
    ensures
        s@ == root(),
{
    let mut s = String::new();
    s.push('/');
    s
}

/// The hash of a path after one more character.
pub open spec fn hash_step(h: u64, c: char) -> u64 {
    ((h % 0x1_0000_0000) * 31 + c as u32) as u64
}

/// The hash by which the index finds a path.
pub open spec fn path_hash(s: Seq<char>) -> u64
    decreases s.len(),
{
    if s.len() == 0 {
        0
    } else {
        hash_step(path_hash(s.drop_last()), s.last())
    }
}

/// The hash of the path that holds the characters `s`.
fn hash_chars(s: &Vec<char>) -> (h: u64)
    ensures
        h == path_hash(s@),
{
    let mut h: u64 = 0;
    let mut i: usize = 0;
    while i < s.len()
        invariant
            i <= s.len(),
            h == path_hash(s@.take(i as int)),
        decreases s.len() - i,
    {
        assert(s@.take(i + 1).drop_last() =~= s@.take(i as int));
        h = (h % 0x1_0000_0000) * 31 + (s[i] as u32) as u64;
        i = i + 1;
    }
    assert(s@.take(s.len() as int) =~= s@);
    h
}

/// The mapping between paths and inode identifiers.
pub struct InodeTable {
    paths: Vec<String>,
    index: HashMap<u64, Vec<usize>>,
}

impl View for InodeTable {
    type V = Seq<Seq<char>>;

    /// The paths in the order of their identifiers: position `i` holds the
    /// path with identifier `i + 1`.
    closed spec fn view(&self) -> Seq<Seq<char>> {
        Seq::new(self.paths@.len(), |i: int| self.paths@[i]@)
    }
}

impl InodeTable {
    /// The index knows every path: the position of each is listed under its
    /// hash, and nothing is listed that is no position.
    pub closed spec fn indexed(&self) -> bool {
        &&& forall|i: int|
            0 <= i < self@.len() ==> {
                &&& self.index@.contains_key(#[trigger] path_hash(self@[i]))
                &&& self.index@[path_hash(self@[i])]@.contains(i as usize)
            }
        &&& forall|h: u64, j: int|
            self.index@.contains_key(h) && 0 <= j < self.index@[h]@.len()
                ==> #[trigger] self.index@[h]@[j] < self@.len()
    }

    /// The table's invariant.
    pub open spec fn wf(&self) -> bool {
        table_wf(self@) && self.indexed()
    }

    /// A table that holds the root alone.
    pub fn new() -> (t: InodeTable)
        ensures
            t.wf(),
            t@ == seq![root()],
    {
        let mut t = InodeTable { paths: Vec::new(), index: HashMap::new() };
        t.reset();
        t
    }

    /// Forgets every identifier but the root's and sets the counter back to
    /// its first value.
    pub fn reset(&mut self)
        ensures
            final(self).wf(),
            final(self)@ == seq![root()],
    {
        let root_path = root_string();
        let h = hash_chars(&chars_of(root_path.as_str()));
        let mut paths: Vec<String> = Vec::new();
        paths.push(root_path);
        let mut bucket: Vec<usize> = Vec::new();
        bucket.push(0);
        self.paths = paths;
        self.index.clear();
        self.index.insert(h, bucket);
        proof {
            assert(self.index@[h]@[0] == 0);
        }
    }

    /// How many paths have an identifier, the root included.
    pub fn len(&self) -> (n: usize)
        ensures
            n == self@.len(),
    {
        self.paths.len()
    }

    /// The identifier of the path that holds the characters `target`, if it
    /// has one.
    pub fn find_chars(&self, target: &Vec<char>) -> (r: Option<u64>)
        requires
            self.wf(),
        ensures
            r == id_of(self@, target@),
    {
        let h = hash_chars(target);
        let ghost t = self@;
        let n = self.paths.len();
        let bucket = match self.index.get(&h) {
            Some(bucket) => bucket,
            None => {
                return None;
            },
        };
        let mut j: usize = 0;
        while j < bucket.len()
            invariant
                j <= bucket.len(),
                self.wf(),
                t == self@,
                t.len() == n,
                h == path_hash(target@),
                self.index@.contains_key(h),
                *bucket == self.index@[h],
                forall|m: int| 0 <= m < j ==> t[(#[trigger] bucket@[m]) as int] != target@,
            decreases bucket.len() - j,
        {
            let at: usize = bucket[j];
            let here = chars_of(self.paths[at].as_str());
            assert(t[at as int] == here@);
            if chars_eq(&here, target) {
                return Some((at + 1) as u64);
            }
            j = j + 1;
        }
        None
    }

    /// The identifier of `path`, if it has one.
    pub fn find(&self, path: &str) -> (r: Option<u64>)
        requires
            self.wf(),
        ensures
            r == id_of(self@, path@),
    {
        let target = chars_of(path);
        self.find_chars(&target)
    }

    /// Hands out the counter's value for `path`, which has no identifier yet,
    /// and moves the counter on.
    fn allocate_inode(&mut self, path: &str) -> (ino: u64)
        requires
            old(self).wf(),
            !old(self)@.contains(path@),
        ensures
            final(self).wf(),
            final(self)@ == old(self)@.push(path@),
            ino == next_inode(old(self)@),
    {
        let h = hash_chars(&chars_of(path));
        let at: usize = self.paths.len();
        self.paths.push(path.to_owned());
        let n = self.paths.len();
        let mut bucket = match self.index.remove(&h) {
            Some(bucket) => bucket,
            None => Vec::new(),
        };
        let ghost before = bucket@;
        bucket.push(at);
        self.index.insert(h, bucket);
        proof {
            let t = self@;
            let o = old(self)@;
            assert(t =~= o.push(path@));
            let listed = self.index@[h]@;
            assert(listed[before.len() as int] == at);
            assert forall|i: int| 0 <= i < t.len() implies {
                &&& self.index@.contains_key(#[trigger] path_hash(t[i]))
                &&& self.index@[path_hash(t[i])]@.contains(i as usize)
            } by {
                if i < o.len() {
                    let was = old(self).index@[path_hash(o[i])]@;
                    if path_hash(o[i]) == h {
                        let m = choose|m: int| 0 <= m < was.len() && was[m] == i as usize;
                        assert(listed[m] == i as usize);
                    }
                }
            }
        }
        n as u64
    }

    /// The identifier of `path`: the one it has, or else the counter's value,
    /// which from now on stands for `path`.
    pub fn get_or_create_inode(&mut self, path: &str) -> (ino: u64)
        requires
            old(self).wf(),
        ensures
            final(self).wf(),
            final(self)@ == allocate(old(self)@, path@),
            id_of(final(self)@, path@) == Some(ino),
            resolve_spec(final(self)@, ino) == Some(path@),
            old(self)@.contains(path@) ==> id_of(old(self)@, path@) == Some(ino),
            !old(self)@.contains(path@) ==> ino == next_inode(old(self)@),
    {
        let ino = match self.find(path) {
            Some(ino) => ino,
            None => self.allocate_inode(path),
        };
        proof {
            let t = self@;
            assert(t.contains(path@)) by {
                if !old(self)@.contains(path@) {
                    assert(t[old(self)@.len() as int] == path@);
                }
            }
        }
        ino
    }

    /// The path that `ino` stands for, if it stands for one.
    pub fn get_path(&self, ino: u64) -> (r: Option<&String>)
        requires
            self.wf(),
        ensures
            match r {
                Some(p) => resolve_spec(self@, ino) == Some(p@),
                None => resolve_spec(self@, ino) is None,
            },
    {
        if ino >= 1 && ino <= self.paths.len() as u64 {
            let p = &self.paths[(ino - 1) as usize];
            Some(p)
        } else {
            None
        }
    }
}

} // verus!
