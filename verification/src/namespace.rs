//! The namespace that a flat list of object keys implies.
//!
//! The store holds objects under flat keys such as `dir/b.txt`. A key `k` is
//! seen at the path `/k`, as a file; a directory exists wherever some object
//! lives strictly under a path that is no object's own. Nothing here is
//! stored: every answer is derived from the key list.

use vstd::prelude::*;
use crate::text::{chars_eq, chars_of, sub_chars};

verus! {

/// The path of the root directory.
pub open spec fn root() -> Seq<char> {
    seq!['/']
}

/// The path at which the object with key `key` is seen.
pub open spec fn key_path(key: Seq<char>) -> Seq<char> {
    seq!['/'] + key
}

/// The character sequences of a list of strings.
pub open spec fn views(keys: Seq<String>) -> Seq<Seq<char>> {
    Seq::new(keys.len(), |i: int| keys[i]@)
}

/// `path` lies strictly under `dir`: `dir` followed by `/` is a proper
/// prefix of `path`.
pub open spec fn lives_under(path: Seq<char>, dir: Seq<char>) -> bool {
    &&& dir.len() + 1 < path.len()
    &&& path.subrange(0, dir.len() as int) == dir
    &&& path[dir.len() as int] == '/'
}

/// Some object of `keys` lives strictly under `dir`.
pub open spec fn has_object_under(keys: Seq<Seq<char>>, dir: Seq<char>) -> bool {
    exists|i: int| 0 <= i < keys.len() && lives_under(key_path(#[trigger] keys[i]), dir)
}

/// `path` is the path of an object of `keys`.
pub open spec fn is_object(keys: Seq<Seq<char>>, path: Seq<char>) -> bool {
    exists|i: int| 0 <= i < keys.len() && key_path(#[trigger] keys[i]) == path
}

/// `path` is a directory: the root, or a path with an object strictly under
/// it that is not itself the path of an object. The path of an object is a
/// file, whatever lies under it.
pub open spec fn is_directory_spec(keys: Seq<Seq<char>>, path: Seq<char>) -> bool {
    path == root() || (!is_object(keys, path) && has_object_under(keys, path))
}

/// `path` belongs to the namespace of `keys`: it is the root, the path of an
/// object, or a directory above one.
pub open spec fn in_namespace(keys: Seq<Seq<char>>, path: Seq<char>) -> bool {
    ||| path == root()
    ||| is_object(keys, path)
    ||| (path.len() > 0 && has_object_under(keys, path))
}

/// `ancestor` is a proper ancestor of `path`: a non-empty path under which
/// `path` lies, or the root above any other path.
pub open spec fn is_proper_ancestor(ancestor: Seq<char>, path: Seq<char>) -> bool {
    ||| (ancestor.len() > 0 && lives_under(path, ancestor))
    ||| (ancestor == root() && path != root())
}

/// The proper ancestors of the path `p` that are not longer than `i`, the
/// longest first: each stands before a `/` of `p` that something follows.
pub open spec fn ancestors_upto(p: Seq<char>, i: int) -> Seq<Seq<char>>
    decreases i,
{
    if i <= 0 {
        Seq::empty()
    } else if i + 1 < p.len() && p[i] == '/' {
        seq![p.subrange(0, i)] + ancestors_upto(p, i - 1)
    } else {
        ancestors_upto(p, i - 1)
    }
}

/// The paths that the object with key `key` brings into the namespace: its
/// own, then its ancestors from the nearest up.
pub open spec fn paths_of_key(key: Seq<char>) -> Seq<Seq<char>> {
    seq![key_path(key)] + ancestors_upto(key_path(key), key_path(key).len() - 1)
}

/// The paths that the objects of `keys` bring into the namespace, key by
/// key.
pub open spec fn visit_order(keys: Seq<Seq<char>>) -> Seq<Seq<char>>
    decreases keys.len(),
{
    if keys.len() == 0 {
        Seq::empty()
    } else {
        visit_order(keys.drop_last()) + paths_of_key(keys.last())
    }
}

/// The path of every object is a file: it is not a directory, whatever else
/// the key list holds. The one exception is the empty key, whose path is the
/// root.
pub proof fn law_object_path_is_not_directory(keys: Seq<Seq<char>>, i: int)
    requires
        0 <= i < keys.len(),
        keys[i].len() > 0,
    ensures
        !is_directory_spec(keys, key_path(keys[i])),
        is_object(keys, key_path(keys[i])),
{
}

/// Every proper ancestor of the path of an object is a directory, unless it
/// is the path of an object itself.
pub proof fn law_ancestor_is_directory(keys: Seq<Seq<char>>, i: int, ancestor: Seq<char>)
    requires
        0 <= i < keys.len(),
        is_proper_ancestor(ancestor, key_path(keys[i])),
        !is_object(keys, ancestor),
    ensures
        is_directory_spec(keys, ancestor),
{
}

/// Adding a key to the list adds what lives under it, and nothing else.
pub proof fn lemma_has_object_under_push(keys: Seq<Seq<char>>, key: Seq<char>, dir: Seq<char>)
    ensures
        has_object_under(keys.push(key), dir) == (has_object_under(keys, dir) || lives_under(
            key_path(key),
            dir,
        )),
{
    let more = keys.push(key);
    if has_object_under(keys, dir) {
        let i = choose|i: int| 0 <= i < keys.len() && lives_under(key_path(#[trigger] keys[i]), dir);
        assert(more[i] == keys[i]);
    }
    if lives_under(key_path(key), dir) {
        assert(more[keys.len() as int] == key);
    }
}

/// Adding a key to the list adds its own path to the objects, and nothing
/// else.
pub proof fn lemma_is_object_push(keys: Seq<Seq<char>>, key: Seq<char>, path: Seq<char>)
    ensures
        is_object(keys.push(key), path) == (is_object(keys, path) || key_path(key) == path),
{
    let more = keys.push(key);
    if is_object(keys, path) {
        let i = choose|i: int| 0 <= i < keys.len() && key_path(#[trigger] keys[i]) == path;
        assert(more[i] == keys[i]);
    }
    if key_path(key) == path {
        assert(more[keys.len() as int] == key);
    }
}

/// What lives under a path depends on the set of keys alone, not on their
/// order in the list.
pub proof fn lemma_has_object_under_by_set(a: Seq<Seq<char>>, b: Seq<Seq<char>>, dir: Seq<char>)
    requires
        a.to_set() == b.to_set(),
    ensures
        has_object_under(a, dir) == has_object_under(b, dir),
{
    if has_object_under(a, dir) {
        let i = choose|i: int| 0 <= i < a.len() && lives_under(key_path(#[trigger] a[i]), dir);
        assert(a.to_set().contains(a[i]));
    }
    if has_object_under(b, dir) {
        let i = choose|i: int| 0 <= i < b.len() && lives_under(key_path(#[trigger] b[i]), dir);
        assert(b.to_set().contains(b[i]));
    }
}

/// Which paths are objects depends on the set of keys alone.
pub proof fn lemma_is_object_by_set(a: Seq<Seq<char>>, b: Seq<Seq<char>>, path: Seq<char>)
    requires
        a.to_set() == b.to_set(),
    ensures
        is_object(a, path) == is_object(b, path),
{
    if is_object(a, path) {
        let i = choose|i: int| 0 <= i < a.len() && key_path(#[trigger] a[i]) == path;
        assert(a.to_set().contains(a[i]));
    }
    if is_object(b, path) {
        let i = choose|i: int| 0 <= i < b.len() && key_path(#[trigger] b[i]) == path;
        assert(b.to_set().contains(b[i]));
    }
}

/// The position of the last `/` of `p`, or -1 if it holds none.
pub open spec fn last_slash(p: Seq<char>) -> int
    decreases p.len(),
{
    if p.len() == 0 {
        -1
    } else if p.last() == '/' {
        p.len() - 1
    } else {
        last_slash(p.drop_last())
    }
}

/// The directory that holds the entry at `p`: what stands before the last
/// `/` of `p`, or the root where nothing stands before it.
pub open spec fn parent_path(p: Seq<char>) -> Seq<char> {
    if last_slash(p) <= 0 {
        root()
    } else {
        p.subrange(0, last_slash(p))
    }
}

/// The characters of the path of the directory that holds the entry at `p`.
pub fn parent_path_chars(p: &Vec<char>) -> (parent: Vec<char>)
    ensures
        parent@ == parent_path(p@),
{
    let mut i: usize = p.len();
    assert(p@.subrange(0, i as int) =~= p@);
    while i > 0 && p[i - 1] != '/'
        invariant
            i <= p.len(),
            last_slash(p@) == last_slash(p@.subrange(0, i as int)),
        decreases i,
    {
        assert(p@.subrange(0, i as int).drop_last() =~= p@.subrange(0, i - 1));
        i = i - 1;
    }
    if i <= 1 {
        let mut parent: Vec<char> = Vec::new();
        parent.push('/');
        parent
    } else {
        sub_chars(p, 0, i - 1)
    }
}

/// The characters of the path of the object with key `key`.
pub fn key_path_chars(key: &str) -> (p: Vec<char>)
    ensures
        p@ == key_path(key@),
{
    let k = chars_of(key);
    let mut p: Vec<char> = Vec::new();
    p.push('/');
    let mut i: usize = 0;
    while i < k.len()
        invariant
            i <= k.len(),
            p@ == seq!['/'] + k@.subrange(0, i as int),
        decreases k.len() - i,
    {
        p.push(k[i]);
        i = i + 1;
    }
    p
}

/// Whether `path` lies strictly under `dir`.
pub fn path_lives_under(path: &Vec<char>, dir: &Vec<char>) -> (r: bool)
    ensures
        r == lives_under(path@, dir@),
{
    let n = dir.len();
    if n >= path.len() || path.len() - n < 2 {
        return false;
    }
    let mut i: usize = 0;
    while i < n
        invariant
            n == dir.len(),
            n + 1 < path.len(),
            i <= n,
            forall|j: int| 0 <= j < i ==> path@[j] == dir@[j],
        decreases n - i,
    {
        if path[i] != dir[i] {
            return false;
        }
        i = i + 1;
    }
    assert(path@.subrange(0, n as int) =~= dir@);
    path[n] == '/'
}

/// Whether `path` is a directory of the namespace of `keys`: the root, or a
/// path with an object strictly under it that is not the path of an object.
pub fn is_directory(keys: &Vec<String>, path: &str) -> (r: bool)
    ensures
        r == is_directory_spec(views(keys@), path@),
{
    let dir = chars_of(path);
    is_directory_chars(keys, &dir)
}

/// Whether the path that holds the characters `dir` is a directory of the
/// namespace of `keys`.
pub fn is_directory_chars(keys: &Vec<String>, dir: &Vec<char>) -> (r: bool)
    ensures
        r == is_directory_spec(views(keys@), dir@),
{
    if dir.len() == 1 && dir[0] == '/' {
        assert(dir@ =~= root());
        return true;
    }
    if is_object_chars(keys, dir) {
        return false;
    }
    has_object_under_chars(keys, dir)
}

/// Whether some object of `keys` lives strictly under the path that holds
/// the characters `dir`.
pub fn has_object_under_chars(keys: &Vec<String>, dir: &Vec<char>) -> (r: bool)
    ensures
        r == has_object_under(views(keys@), dir@),
{
    let mut i: usize = 0;
    while i < keys.len()
        invariant
            i <= keys.len(),
            forall|j: int| 0 <= j < i ==> !lives_under(key_path(#[trigger] views(keys@)[j]), dir@),
        decreases keys.len() - i,
    {
        let p = key_path_chars(keys[i].as_str());
        assert(views(keys@)[i as int] == keys@[i as int]@);
        if path_lives_under(&p, dir) {
            return true;
        }
        i = i + 1;
    }
    false
}

/// Whether `path` is the path of an object of `keys`.
pub fn is_object_path(keys: &Vec<String>, path: &str) -> (r: bool)
    ensures
        r == is_object(views(keys@), path@),
{
    let target = chars_of(path);
    is_object_chars(keys, &target)
}

/// Whether the path that holds the characters `target` is the path of an
/// object of `keys`.
pub fn is_object_chars(keys: &Vec<String>, target: &Vec<char>) -> (r: bool)
    ensures
        r == is_object(views(keys@), target@),
{
    let mut i: usize = 0;
    while i < keys.len()
        invariant
            i <= keys.len(),
            forall|j: int| 0 <= j < i ==> key_path(#[trigger] views(keys@)[j]) != target@,
        decreases keys.len() - i,
    {
        let p = key_path_chars(keys[i].as_str());
        assert(views(keys@)[i as int] == keys@[i as int]@);
        if chars_eq(&p, target) {
            return true;
        }
        i = i + 1;
    }
    false
}

} // verus!
