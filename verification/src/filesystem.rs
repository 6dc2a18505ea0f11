//! The file system: the snapshot of the namespace, and what each operation
//! answers.
//!
//! A snapshot is the key list, the inode table and the listings that were
//! worked out from them. `refresh_object_list` replaces all three at once;
//! nothing else changes the namespace. The operations decide and answer; they
//! fetch nothing. Where an answer needs an object from the store, the
//! operation says which, and a second call takes what was fetched.

use vstd::prelude::*;
use std::collections::HashMap;
use crate::attr::{dir_attr_at, file_attr, file_attr_of, is_dir_attr, FileAttr};
use crate::cache::{
    cache_file_name, insert, join_path, lookup, touch, Cache, CacheError, CacheStats,
};
use crate::cos_client::{
    base_url_of, current_time, ClientError, CosClient, ObjectMeta, ObjectMetaView,
};
use crate::inode::{
    allocate_all, id_of, lemma_allocate_all_concat, lemma_allocate_all_first,
    lemma_allocate_contains, resolve_spec, table_wf, InodeTable, ROOT_INODE,
};
use crate::listing::{
    child_path, clone_entries, dir_prefix_chars, entry_views, is_listing, lemma_listing_of,
    listing_of, DirEntry, DirEntryView, FileKind,
};
use crate::namespace::{
    ancestors_upto, in_namespace, is_directory_chars, is_directory_spec, is_object_chars,
    key_path, key_path_chars, lives_under, parent_path, parent_path_chars, paths_of_key, root,
    views, visit_order,
};
use crate::text::{chars_of, joined, string_of};

verus! {

broadcast use vstd::std_specs::hash::group_hash_axioms;

/// The greatest number of keys of a snapshot: with `.` and `..` before them,
/// the entries of a directory must have offsets that fit the cursor, which
/// is an `i64`.
pub const MAX_KEYS: u64 = 0x7fff_ffff_ffff_fffd;

/// Why an operation fails.
#[derive(Debug, Clone, Copy, PartialEq, Eq, Structural)]
pub enum FsError {
    /// No such identifier, or no such entry.
    NotFound,
    /// A directory was asked for, and the entry is none.
    NotADirectory,
    /// The operation is not allowed: writing, or opening or reading a
    /// directory.
    PermissionDenied,
    /// The entry has no such extended attribute.
    NoAttributeData,
    /// The store or the local cache failed.
    IoFailure,
}

/// What `lookup` and `getattr` decide.
#[derive(Debug, Clone)]
pub enum AttrStep {
    /// The answer: the attributes of the entry.
    Reply(FileAttr),
    /// The entry is a file, and the cache holds no metadata of its object.
    /// The metadata of the object `key` is to be fetched and handed to
    /// `complete_attr`, with `ino`.
    Fetch { ino: u64, key: String },
    /// The operation fails.
    Fail(FsError),
}

/// What `read` decides.
#[derive(Debug, Clone)]
pub enum ReadStep {
    /// The entry is a file. The content of the object `key` is to be taken
    /// from the file `cache_path` of the content cache, or else fetched from
    /// the store and written there, and handed to `complete_read`.
    Fetch { key: String, cache_path: String },
    /// The operation fails.
    Fail(FsError),
}

/// One item of the answer to `readdir`: an entry, and the offset at which a
/// later call continues behind it.
#[derive(Debug, Clone)]
pub struct DirItem {
    pub ino: u64,
    pub offset: i64,
    pub kind: FileKind,
    pub name: String,
}

/// An item of the answer to `readdir` as plain values.
pub struct DirItemView {
    pub ino: u64,
    pub offset: i64,
    pub kind: FileKind,
    pub name: Seq<char>,
}

impl View for DirItem {
    type V = DirItemView;

    open spec fn view(&self) -> DirItemView {
        DirItemView { ino: self.ino, offset: self.offset, kind: self.kind, name: self.name@ }
    }
}

/// The items of an answer as plain values.
pub open spec fn item_views(items: Seq<DirItem>) -> Seq<DirItemView> {
    Seq::new(items.len(), |i: int| items[i]@)
}

/// The answer to a question about extended attributes.
#[derive(Debug, Clone)]
pub enum XattrReply {
    /// The number of bytes that the data would take.
    Size(u32),
    /// The data.
    Data(Vec<u8>),
}

/// `libc::W_OK`, the bit of an access mask that asks for writing: 2.
#[verifier::external_body]
fn write_bit() -> (bit: i32)
    ensures
        bit == 2,
{
    libc::W_OK
}

/// The access mask asks for writing.
pub open spec fn asks_to_write(mask: i32) -> bool {
    mask & 2 != 0
}

/// The name `.`.
pub open spec fn dot() -> Seq<char> {
    seq!['.']
}

/// The name `..`.
pub open spec fn dot_dot() -> Seq<char> {
    seq!['.', '.']
}

/// The identifier behind `..` in the directory `path` with identifier `ino`:
/// the root is its own parent; any other directory has the identifier of the
/// path that holds it, or the root's where that path has none.
pub open spec fn parent_ino(table: Seq<Seq<char>>, path: Seq<char>, ino: u64) -> u64 {
    if path == root() {
        ino
    } else {
        match id_of(table, parent_path(path)) {
            Some(parent) => parent,
            None => ROOT_INODE,
        }
    }
}

/// Everything that the directory `ino` holds, in the order of the cursor:
/// `.`, then `..`, then the listing. The offset of each item is its position
/// plus one, which is where a reader continues behind it.
pub open spec fn dir_items(ino: u64, parent: u64, listing: Seq<DirEntryView>) -> Seq<
    DirItemView,
> {
    Seq::new(
        listing.len() + 2,
        |i: int|
            if i == 0 {
                DirItemView { ino, offset: 1, kind: FileKind::Directory, name: dot() }
            } else if i == 1 {
                DirItemView { ino: parent, offset: 2, kind: FileKind::Directory, name: dot_dot() }
            } else {
                DirItemView {
                    ino: listing[i - 2].ino,
                    offset: (i + 1) as i64,
                    kind: listing[i - 2].kind,
                    name: listing[i - 2].name,
                }
            },
    )
}

/// The items that a reader at `offset` is still to see.
pub open spec fn items_from(items: Seq<DirItemView>, offset: i64) -> Seq<DirItemView> {
    if offset <= 0 {
        items
    } else if offset >= items.len() {
        Seq::empty()
    } else {
        items.skip(offset as int)
    }
}

/// A reader that continues at the offset of an item sees the items behind
/// it, each once and none left out; a reader at 0 sees them all.
pub proof fn law_cursor_resumes(ino: u64, parent: u64, listing: Seq<DirEntryView>, k: int)
    requires
        listing.len() + 2 <= i64::MAX,
        0 <= k < listing.len() + 2,
    ensures
        items_from(dir_items(ino, parent, listing), 0) == dir_items(ino, parent, listing),
        dir_items(ino, parent, listing)[k].offset == k + 1,
        items_from(dir_items(ino, parent, listing), dir_items(ino, parent, listing)[k].offset)
            == dir_items(ino, parent, listing).skip(k + 1),
        dir_items(ino, parent, listing).take(k + 1) + items_from(
            dir_items(ino, parent, listing),
            dir_items(ino, parent, listing)[k].offset,
        ) == dir_items(ino, parent, listing),
{
}

/// The bytes that a reader at `offset` gets when it asks for `size` bytes of
/// `content`: what lies from `offset` on, as far as `size` and the content
/// reach; nothing where `offset` lies outside the content.
pub open spec fn read_window(content: Seq<u8>, offset: i64, size: u32) -> Seq<u8> {
    if offset < 0 || offset >= content.len() {
        Seq::empty()
    } else if offset + size >= content.len() {
        content.subrange(offset as int, content.len() as int)
    } else {
        content.subrange(offset as int, offset + size)
    }
}

/// The key of the object at `path`: the path without its first character.
pub open spec fn key_of(path: Seq<char>) -> Seq<char> {
    path.skip(1)
}

/// `step` is what the entry at `path` with the identifier `ino` is answered
/// with, given the metadata that the cache holds: the attributes of a
/// directory, or of a file from the metadata of its object, or else the
/// request to fetch that metadata.
pub open spec fn answers_attr(
    step: AttrStep,
    keys: Seq<Seq<char>>,
    entries: Seq<(Seq<char>, ObjectMetaView)>,
    path: Seq<char>,
    ino: u64,
) -> bool {
    if is_directory_spec(keys, path) {
        step matches AttrStep::Reply(attr) && is_dir_attr(attr, ino)
    } else {
        match lookup(entries, key_of(path)) {
            Some(meta) => step == AttrStep::Reply(file_attr(meta, ino)),
            None => step matches AttrStep::Fetch { ino: i, key: k } && i == ino && k@ == key_of(
                path,
            ),
        }
    }
}

/// The entries of the cache after the entry at `path` was asked for: the
/// metadata of a file counts as used.
pub open spec fn entries_after_attr(
    keys: Seq<Seq<char>>,
    entries: Seq<(Seq<char>, ObjectMetaView)>,
    path: Seq<char>,
) -> Seq<(Seq<char>, ObjectMetaView)> {
    if is_directory_spec(keys, path) {
        entries
    } else {
        touch(entries, key_of(path))
    }
}

/// The file system over one bucket.
pub struct CosFilesystem {
    cos_client: CosClient,
    cache: Cache,
    inodes: InodeTable,
    object_list: Vec<String>,
    dir_cache: HashMap<u64, Vec<DirEntry>>,
}

impl CosFilesystem {
    /// The keys of the snapshot.
    pub closed spec fn keys(&self) -> Seq<Seq<char>> {
        views(self.object_list@)
    }

    /// The inode table: the paths in the order of their identifiers.
    pub closed spec fn table(&self) -> Seq<Seq<char>> {
        self.inodes@
    }

    /// The listings that are kept, by the identifier of their directory.
    pub closed spec fn listings(&self) -> Map<u64, Seq<DirEntryView>> {
        Map::new(
            |ino: u64| self.dir_cache@.dom().contains(ino),
            |ino: u64| entry_views(self.dir_cache@[ino]@),
        )
    }

    /// The metadata cache.
    pub closed spec fn cache(&self) -> Cache {
        self.cache
    }

    /// The client of the store.
    pub closed spec fn client(&self) -> CosClient {
        self.cos_client
    }

    /// The invariant of the file system: the table holds exactly the paths
    /// of the namespace, and every listing that is kept is the listing of its
    /// directory.
    pub closed spec fn wf(&self) -> bool {
        &&& self.cache.wf()
        &&& self.inodes.wf()
        &&& self.object_list@.len() <= MAX_KEYS
        &&& forall|p: Seq<char>| in_namespace(self.keys(), p) <==> self.table().contains(p)
        &&& forall|ino: u64| #[trigger]
            self.dir_cache@.dom().contains(ino) ==> {
                &&& resolve_spec(self.table(), ino) is Some
                &&& self.dir_cache@[ino]@.len() <= self.object_list@.len()
                &&& is_listing(
                    self.keys(),
                    self.table(),
                    resolve_spec(self.table(), ino)->0,
                    entry_views(self.dir_cache@[ino]@),
                )
            }
    }

    /// In every state of the file system the cache and the inode table are
    /// well formed, a path has an identifier exactly when it belongs to the
    /// namespace of the keys, and every listing that is kept is the listing
    /// of the directory that its identifier stands for.
    pub proof fn law_snapshot_is_consistent(&self)
        requires
            self.wf(),
        ensures
            self.cache().wf(),
            table_wf(self.table()),
            self.keys().len() <= MAX_KEYS,
            forall|p: Seq<char>| in_namespace(self.keys(), p) <==> self.table().contains(p),
            forall|ino: u64| #[trigger]
                self.listings().dom().contains(ino) ==> {
                    &&& resolve_spec(self.table(), ino) is Some
                    &&& is_listing(
                        self.keys(),
                        self.table(),
                        resolve_spec(self.table(), ino)->0,
                        self.listings()[ino],
                    )
                },
    {
    }

    /// A file system for `bucket` in `region`, with an empty namespace and a
    /// metadata cache of 1000 entries; object content is kept in `cache_dir`.
    pub fn new(bucket: String, region: String, cache_dir: &str) -> (r: Result<
        CosFilesystem,
        CacheError,
    >)
        ensures
            r matches Ok(fs) && {
                &&& fs.wf()
                &&& fs.keys() == Seq::<Seq<char>>::empty()
                &&& fs.table() == seq![root()]
                &&& fs.listings() == Map::<u64, Seq<DirEntryView>>::empty()
                &&& fs.cache().entries() == Seq::<(Seq<char>, ObjectMetaView)>::empty()
                &&& fs.cache().capacity() == 1000
                &&& fs.cache().dir_view() == cache_dir@
                &&& fs.client().bucket_view() == bucket@
                &&& fs.client().region_view() == region@
                &&& fs.client().base_url_view() == base_url_of(bucket@, region@)
            },
    {
        let cos_client = CosClient::new(bucket, region);
        let cache = match Cache::new(cache_dir, 1000) {
            Ok(cache) => cache,
            Err(e) => {
                return Err(e);
            },
        };
        let fs = CosFilesystem {
            cos_client,
            cache,
            inodes: InodeTable::new(),
            object_list: Vec::new(),
            dir_cache: HashMap::new(),
        };
        Ok(fs)
    }

    /// The client of the store.
    pub fn cos_client(&self) -> (client: &CosClient)
        ensures
            *client == self.client(),
    {
        &self.cos_client
    }

    /// Replaces the snapshot: `keys` becomes the key list, the inode table is
    /// built anew, and no listing is kept. Every path of the new namespace
    /// gets its identifier here: key by key the object's path and then its
    /// ancestors from the nearest up, each the counter's value unless it has
    /// one. The metadata cache stays as it is.
    pub fn refresh_object_list(&mut self, keys: Vec<String>)
        requires
            old(self).wf(),
            keys@.len() <= MAX_KEYS,
        ensures
            final(self).wf(),
            final(self).keys() == views(keys@),
            final(self).table() == allocate_all(seq![root()], visit_order(views(keys@))),
            final(self).listings() == Map::<u64, Seq<DirEntryView>>::empty(),
            final(self).cache() == old(self).cache(),
            final(self).client() == old(self).client(),
    {
        let ghost all = views(keys@);
        self.object_list = keys;
        self.inodes.reset();
        self.dir_cache.clear();
        let mut n: usize = 0;
        while n < self.object_list.len()
            invariant
                n <= self.object_list.len(),
                all == views(self.object_list@),
                self.inodes.wf(),
                self.inodes@ == allocate_all(seq![root()], visit_order(all.take(n as int))),
                forall|q: Seq<char>| #[trigger]
                    self.inodes@.contains(q) <==> in_namespace(all.take(n as int), q),
                self.cache == old(self).cache,
                self.cos_client == old(self).cos_client,
                self.dir_cache@ == Map::<u64, Vec<DirEntry>>::empty(),
            decreases self.object_list.len() - n,
        {
            let p = key_path_chars(self.object_list[n].as_str());
            let ghost key = all[n as int];
            let ghost seen = all.take(n as int);
            let ghost start = self.inodes@;
            let path = string_of(&p, 0, p.len());
            assert(path@ =~= p@);
            self.inodes.get_or_create_inode(path.as_str());
            proof {
                lemma_allocate_all_first(
                    start,
                    key_path(key),
                    ancestors_upto(key_path(key), key_path(key).len() - 1),
                );
                assert forall|q: Seq<char>| #[trigger]
                    self.inodes@.contains(q) <==> (start.contains(q) || q == p@) by {
                    lemma_allocate_contains(start, p@, q);
                }
            }
            let mut i: usize = p.len() - 1;
            while i > 0
                invariant
                    i < p.len(),
                    p@ == key_path(key),
                    self.inodes.wf(),
                    allocate_all(self.inodes@, ancestors_upto(p@, i as int)) == allocate_all(
                        start,
                        paths_of_key(key),
                    ),
                    forall|q: Seq<char>| #[trigger]
                        self.inodes@.contains(q) <==> (start.contains(q) || q == p@ || (q.len()
                            > i && lives_under(p@, q))),
                    self.cache == old(self).cache,
                    self.cos_client == old(self).cos_client,
                    self.dir_cache@ == Map::<u64, Vec<DirEntry>>::empty(),
                    all == views(self.object_list@),
                    n < self.object_list.len(),
                decreases i,
            {
                let ghost before = self.inodes@;
                if p[i] == '/' && p.len() - i > 1 {
                    let ancestor = string_of(&p, 0, i);
                    self.inodes.get_or_create_inode(ancestor.as_str());
                    proof {
                        lemma_allocate_all_first(
                            before,
                            ancestor@,
                            ancestors_upto(p@, i as int - 1),
                        );
                        assert forall|q: Seq<char>| #[trigger]
                            self.inodes@.contains(q) <==> (start.contains(q) || q == p@ || (
                            q.len() > i - 1 && lives_under(p@, q))) by {
                            lemma_allocate_contains(before, ancestor@, q);
                        }
                    }
                }
                i = i - 1;
            }
            proof {
                lemma_allocate_all_concat(seq![root()], visit_order(seen), paths_of_key(key));
                let more = all.take(n + 1);
                assert(more.drop_last() =~= seen);
                assert(more.last() == key);
            }
            n = n + 1;
        }
        proof {
            assert(all.take(all.len() as int) =~= all);
        }
    }

    /// Whether `path` is a directory: the root, or a path with an object
    /// strictly under it that is not the path of an object.
    pub fn is_directory(&self, path: &str) -> (r: bool)
        ensures
            r == is_directory_spec(self.keys(), path@),
    {
        let dir = chars_of(path);
        is_directory_chars(&self.object_list, &dir)
    }

    /// The listing of the directory `path`: one entry for each name right
    /// below it, sorted by name, each with its kind and its identifier.
    pub fn list_directory(&self, path: &str) -> (entries: Vec<DirEntry>)
        requires
            self.wf(),
        ensures
            is_listing(self.keys(), self.table(), path@, entry_views(entries@)),
            entries.len() <= self.keys().len(),
    {
        crate::listing::list_directory(&self.object_list, &self.inodes, path)
    }

    /// The path that `ino` stands for, if it stands for one.
    pub fn get_path(&self, ino: u64) -> (r: Option<&String>)
        requires
            self.wf(),
        ensures
            match r {
                Some(p) => resolve_spec(self.table(), ino) == Some(p@),
                None => resolve_spec(self.table(), ino) is None,
            },
    {
        self.inodes.get_path(ino)
    }

    /// The other file system holds the same snapshot, the same client and a
    /// cache of the same make; the entries of the cache may differ.
    pub open spec fn same_snapshot(&self, other: CosFilesystem) -> bool {
        &&& self.keys() == other.keys()
        &&& self.table() == other.table()
        &&& self.listings() == other.listings()
        &&& self.client() == other.client()
        &&& self.cache().capacity() == other.cache().capacity()
        &&& self.cache().dir_view() == other.cache().dir_view()
    }

    /// Every path of the table is a path of the namespace, and holds a
    /// character at least.
    proof fn lemma_resolved_path(&self, ino: u64)
        requires
            self.wf(),
            resolve_spec(self.table(), ino) is Some,
        ensures
            in_namespace(self.keys(), resolve_spec(self.table(), ino)->0),
            resolve_spec(self.table(), ino)->0.len() >= 1,
            id_of(self.table(), resolve_spec(self.table(), ino)->0) == Some(ino),
    {
    }

    /// The attributes of the file `ino` whose object has the metadata `meta`.
    pub fn meta_to_attr(&self, meta: &ObjectMeta, ino: u64) -> (attr: FileAttr)
        ensures
            attr == file_attr(meta@, ino),
    {
        file_attr_of(meta, ino)
    }

    /// The attributes of the directory `ino`, with the time of the call for
    /// each of its times.
    pub fn create_dir_attr(&self, ino: u64) -> (attr: FileAttr)
        ensures
            is_dir_attr(attr, ino),
    {
        dir_attr_at(ino, current_time())
    }

    /// The metadata that the cache holds for the object `key`, if it holds
    /// any; the entry counts as used.
    pub fn get_object_metadata(&mut self, key: &str) -> (r: Option<ObjectMeta>)
        requires
            old(self).wf(),
        ensures
            final(self).wf(),
            final(self).same_snapshot(*old(self)),
            final(self).cache().entries() == touch(old(self).cache().entries(), key@),
            match r {
                Some(meta) => lookup(old(self).cache().entries(), key@) == Some(meta@),
                None => lookup(old(self).cache().entries(), key@) is None,
            },
    {
        self.cache.get_metadata(key)
    }

    /// Answers for the entry at `path`, which is known to be a directory or
    /// not.
    fn attr_step(&mut self, path: &Vec<char>, is_dir: bool, ino: u64) -> (r: AttrStep)
        requires
            old(self).wf(),
            path@.len() >= 1,
            is_dir == is_directory_spec(old(self).keys(), path@),
        ensures
            final(self).wf(),
            final(self).same_snapshot(*old(self)),
            answers_attr(r, old(self).keys(), old(self).cache().entries(), path@, ino),
            final(self).cache().entries() == entries_after_attr(
                old(self).keys(),
                old(self).cache().entries(),
                path@,
            ),
    {
        if is_dir {
            AttrStep::Reply(self.create_dir_attr(ino))
        } else {
            let key = string_of(path, 1, path.len());
            match self.get_object_metadata(key.as_str()) {
                Some(meta) => AttrStep::Reply(self.meta_to_attr(&meta, ino)),
                None => AttrStep::Fetch { ino, key },
            }
        }
    }

    /// Looks the entry `name` of the directory `parent` up. An entry exists
    /// where its path belongs to the namespace. A directory is answered
    /// with its attributes; a file with the attributes that the cached
    /// metadata of its object gives, or with the request to fetch that
    /// metadata. An unknown parent or entry is not found.
    pub fn lookup(&mut self, parent: u64, name: &str) -> (r: AttrStep)
        requires
            old(self).wf(),
        ensures
            final(self).wf(),
            final(self).same_snapshot(*old(self)),
            match resolve_spec(old(self).table(), parent) {
                None => {
                    &&& r == AttrStep::Fail(FsError::NotFound)
                    &&& final(self).cache().entries() == old(self).cache().entries()
                },
                Some(dir) => {
                    let target = child_path(dir, name@);
                    if in_namespace(old(self).keys(), target) {
                        &&& id_of(old(self).table(), target) is Some
                        &&& answers_attr(
                            r,
                            old(self).keys(),
                            old(self).cache().entries(),
                            target,
                            id_of(old(self).table(), target)->0,
                        )
                        &&& final(self).cache().entries() == entries_after_attr(
                            old(self).keys(),
                            old(self).cache().entries(),
                            target,
                        )
                    } else {
                        &&& r == AttrStep::Fail(FsError::NotFound)
                        &&& final(self).cache().entries() == old(self).cache().entries()
                    }
                },
            },
    {
        let parent_path = match self.inodes.get_path(parent) {
            Some(p) => chars_of(p.as_str()),
            None => {
                return AttrStep::Fail(FsError::NotFound);
            },
        };
        let target = joined(&dir_prefix_chars(&parent_path), &chars_of(name));
        let is_dir = is_directory_chars(&self.object_list, &target);
        if !is_dir && !is_object_chars(&self.object_list, &target) {
            return AttrStep::Fail(FsError::NotFound);
        }
        let path = string_of(&target, 0, target.len());
        assert(path@ =~= target@);
        let ino = self.inodes.get_or_create_inode(path.as_str());
        self.attr_step(&target, is_dir, ino)
    }

    /// The attributes of the entry `ino`: those of a directory, or those
    /// that the cached metadata of the file's object gives, or else the
    /// request to fetch that metadata. An unknown identifier is not found.
    pub fn getattr(&mut self, ino: u64) -> (r: AttrStep)
        requires
            old(self).wf(),
        ensures
            final(self).wf(),
            final(self).same_snapshot(*old(self)),
            match resolve_spec(old(self).table(), ino) {
                None => {
                    &&& r == AttrStep::Fail(FsError::NotFound)
                    &&& final(self).cache().entries() == old(self).cache().entries()
                },
                Some(path) => {
                    &&& answers_attr(
                        r,
                        old(self).keys(),
                        old(self).cache().entries(),
                        path,
                        ino,
                    )
                    &&& final(self).cache().entries() == entries_after_attr(
                        old(self).keys(),
                        old(self).cache().entries(),
                        path,
                    )
                },
            },
    {
        let path = match self.inodes.get_path(ino) {
            Some(p) => chars_of(p.as_str()),
            None => {
                return AttrStep::Fail(FsError::NotFound);
            },
        };
        proof {
            self.lemma_resolved_path(ino);
        }
        let is_dir = is_directory_chars(&self.object_list, &path);
        self.attr_step(&path, is_dir, ino)
    }

    /// Takes the metadata that was fetched for the object `key` after
    /// `lookup` or `getattr` asked for it. Fetched metadata goes into the
    /// cache and gives the attributes of the file `ino`. A fetch that failed,
    /// `None`, is an input or output failure, and leaves the cache as it was:
    /// the next request asks the store again.
    pub fn complete_attr(&mut self, ino: u64, key: &str, fetched: Option<ObjectMeta>) -> (r: Result<
        FileAttr,
        FsError,
    >)
        requires
            old(self).wf(),
        ensures
            final(self).wf(),
            final(self).same_snapshot(*old(self)),
            match fetched {
                Some(meta) => {
                    &&& r == Ok::<FileAttr, FsError>(file_attr(meta@, ino))
                    &&& final(self).cache().entries() == insert(
                        old(self).cache().entries(),
                        old(self).cache().capacity(),
                        key@,
                        meta@,
                    )
                    &&& lookup(final(self).cache().entries(), key@) == Some(meta@)
                },
                None => {
                    &&& r == Err::<FileAttr, FsError>(FsError::IoFailure)
                    &&& final(self).cache().entries() == old(self).cache().entries()
                },
            },
    {
        match fetched {
            Some(meta) => {
                let attr = self.meta_to_attr(&meta, ino);
                self.cache.set_metadata(key.to_owned(), meta);
                Ok(attr)
            },
            None => Err(FsError::IoFailure),
        }
    }

    /// What a reader at `offset` is still to see of the directory `ino`:
    /// `.`, `..` and the entries in the order of their names, each with the
    /// offset at which to continue behind it. The listing is worked out once
    /// and kept. An unknown identifier is not found; an entry that is no
    /// directory is refused as such.
    pub fn readdir(&mut self, ino: u64, offset: i64) -> (r: Result<Vec<DirItem>, FsError>)
        requires
            old(self).wf(),
        ensures
            final(self).wf(),
            final(self).keys() == old(self).keys(),
            final(self).table() == old(self).table(),
            final(self).client() == old(self).client(),
            final(self).cache() == old(self).cache(),
            match resolve_spec(old(self).table(), ino) {
                None => {
                    &&& r matches Err(e) && e == FsError::NotFound
                    &&& final(self).listings() == old(self).listings()
                },
                Some(path) => if !is_directory_spec(old(self).keys(), path) {
                    &&& r matches Err(e) && e == FsError::NotADirectory
                    &&& final(self).listings() == old(self).listings()
                } else {
                    let listing = listing_of(
                        old(self).keys(),
                        old(self).table(),
                        path,
                    );
                    &&& is_listing(old(self).keys(), old(self).table(), path, listing)
                    &&& r matches Ok(items) && item_views(items@) == items_from(
                        dir_items(ino, parent_ino(old(self).table(), path, ino), listing),
                        offset,
                    )
                    &&& final(self).listings() == old(self).listings().insert(ino, listing)
                },
            },
    {
        let path_string = match self.inodes.get_path(ino) {
            Some(p) => p.clone(),
            None => {
                return Err(FsError::NotFound);
            },
        };
        let path = chars_of(path_string.as_str());
        if !is_directory_chars(&self.object_list, &path) {
            return Err(FsError::NotADirectory);
        }
        let ghost listing = listing_of(self.keys(), self.table(), path@);
        let entries = match self.dir_cache.get(&ino) {
            Some(cached) => {
                proof {
                    lemma_listing_of(
                        self.keys(),
                        self.table(),
                        path@,
                        entry_views(cached@),
                    );
                }
                clone_entries(cached)
            },
            None => {
                let listed = self.list_directory(path_string.as_str());
                proof {
                    lemma_listing_of(
                        self.keys(),
                        self.table(),
                        path@,
                        entry_views(listed@),
                    );
                }
                let kept = clone_entries(&listed);
                self.dir_cache.insert(ino, kept);
                listed
            },
        };
        let parent = if path.len() == 1 && path[0] == '/' {
            assert(path@ =~= root());
            ino
        } else {
            let parent_chars = parent_path_chars(&path);
            match self.inodes.find_chars(&parent_chars) {
                Some(parent) => parent,
                None => ROOT_INODE,
            }
        };
        let ghost all = dir_items(ino, parent, listing);
        let total: u64 = entries.len() as u64 + 2;
        let mut items: Vec<DirItem> = Vec::new();
        if offset >= total as i64 {
            return Ok(items);
        }
        let start: u64 = if offset <= 0 {
            0
        } else {
            offset as u64
        };
        let mut index: u64 = start;
        while index < total
            invariant
                start <= index <= total,
                total == entries.len() + 2,
                total <= MAX_KEYS + 2,
                items.len() == index - start,
                entry_views(entries@) == listing,
                all == dir_items(ino, parent, listing),
                forall|k: int| 0 <= k < items.len() ==> (#[trigger] items@[k])@ == all[start + k],
            decreases total - index,
        {
            let item = if index == 0 {
                let mut name = String::new();
                name.push('.');
                DirItem { ino, offset: 1, kind: FileKind::Directory, name }
            } else if index == 1 {
                let mut name = String::new();
                name.push('.');
                name.push('.');
                assert(name@ =~= dot_dot());
                DirItem { ino: parent, offset: 2, kind: FileKind::Directory, name }
            } else {
                let e = &entries[(index - 2) as usize];
                DirItem { ino: e.ino, offset: (index + 1) as i64, kind: e.kind, name: e.name.clone() }
            };
            items.push(item);
            index = index + 1;
        }
        Ok(items)
    }

    /// Opens the file `ino` and gives its handle, which is 0 for every
    /// file. A directory cannot be opened; an unknown identifier is not
    /// found.
    pub fn open(&self, ino: u64) -> (r: Result<u64, FsError>)
        requires
            self.wf(),
        ensures
            r == match resolve_spec(self.table(), ino) {
                None => Err::<u64, FsError>(FsError::NotFound),
                Some(path) => if is_directory_spec(self.keys(), path) {
                    Err::<u64, FsError>(FsError::PermissionDenied)
                } else {
                    Ok::<u64, FsError>(0)
                },
            },
    {
        let path = match self.inodes.get_path(ino) {
            Some(p) => chars_of(p.as_str()),
            None => {
                return Err(FsError::NotFound);
            },
        };
        if is_directory_chars(&self.object_list, &path) {
            return Err(FsError::PermissionDenied);
        }
        Ok(0)
    }

    /// Decides a read of the entry `ino`: a file is read from the content of
    /// its object, which is to be fetched and handed to `complete_read`; the
    /// answer names the object and the file that holds its content in the
    /// cache. A directory cannot be read; an unknown identifier is not found.
    pub fn read(&self, ino: u64) -> (r: ReadStep)
        requires
            self.wf(),
        ensures
            match resolve_spec(self.table(), ino) {
                None => r == ReadStep::Fail(FsError::NotFound),
                Some(path) => if is_directory_spec(self.keys(), path) {
                    r == ReadStep::Fail(FsError::PermissionDenied)
                } else {
                    r matches ReadStep::Fetch { key, cache_path } && key@ == key_of(path)
                        && cache_path@ == join_path(
                        self.cache().dir_view(),
                        cache_file_name(key_of(path)),
                    )
                },
            },
    {
        let path = match self.inodes.get_path(ino) {
            Some(p) => chars_of(p.as_str()),
            None => {
                return ReadStep::Fail(FsError::NotFound);
            },
        };
        proof {
            self.lemma_resolved_path(ino);
        }
        if is_directory_chars(&self.object_list, &path) {
            return ReadStep::Fail(FsError::PermissionDenied);
        }
        let key = string_of(&path, 1, path.len());
        let cache_path = self.cache.get_content_cache_path(key.as_str());
        ReadStep::Fetch { key, cache_path }
    }

    /// Takes the content that was fetched after `read` asked for it, and
    /// gives the bytes that the reader gets: those from `offset` on, `size`
    /// of them or as many as there are. A reader at or behind the end gets
    /// none, which is no failure. A fetch that failed, `None`, is an input
    /// or output failure.
    pub fn complete_read(content: Option<Vec<u8>>, offset: i64, size: u32) -> (r: Result<
        Vec<u8>,
        FsError,
    >)
        ensures
            match content {
                Some(bytes) => r matches Ok(data) && data@ == read_window(bytes@, offset, size),
                None => r matches Err(e) && e == FsError::IoFailure,
            },
    {
        let bytes = match content {
            Some(bytes) => bytes,
            None => {
                return Err(FsError::IoFailure);
            },
        };
        let mut data: Vec<u8> = Vec::new();
        if offset < 0 || offset as u64 >= bytes.len() as u64 {
            return Ok(data);
        }
        let start: usize = offset as usize;
        let end: usize = if size as u64 >= (bytes.len() - start) as u64 {
            bytes.len()
        } else {
            start + size as usize
        };
        let mut i: usize = start;
        while i < end
            invariant
                start <= i <= end <= bytes.len(),
                data@ == bytes@.subrange(start as int, i as int),
            decreases end - i,
        {
            data.push(bytes[i]);
            i = i + 1;
        }
        Ok(data)
    }

    /// Whether the entry `ino` may be accessed in the ways that `mask` asks
    /// for. Nothing may be written; everything else is allowed. An unknown
    /// identifier is not found.
    pub fn access(&self, ino: u64, mask: i32) -> (r: Result<(), FsError>)
        requires
            self.wf(),
        ensures
            r == match resolve_spec(self.table(), ino) {
                None => Err::<(), FsError>(FsError::NotFound),
                Some(_) => if asks_to_write(mask) {
                    Err::<(), FsError>(FsError::PermissionDenied)
                } else {
                    Ok::<(), FsError>(())
                },
            },
    {
        if self.inodes.get_path(ino).is_none() {
            return Err(FsError::NotFound);
        }
        if mask & write_bit() != 0 {
            Err(FsError::PermissionDenied)
        } else {
            Ok(())
        }
    }

    /// The names of the extended attributes of an entry: there are none. A
    /// caller that gives no room (`size` 0) asks for the room needed, which
    /// is 0; any other gets the empty list.
    pub fn listxattr(&self, _ino: u64, size: u32) -> (r: XattrReply)
        ensures
            size == 0 ==> r == XattrReply::Size(0),
            size != 0 ==> (r matches XattrReply::Data(data) && data@ == Seq::<u8>::empty()),
    {
        if size == 0 {
            XattrReply::Size(0)
        } else {
            XattrReply::Data(Vec::new())
        }
    }

    /// The value of an extended attribute of an entry: no entry has any, so
    /// there is no data under any name.
    pub fn getxattr(&self, _ino: u64, _name: &str, _size: u32) -> (r: Result<XattrReply, FsError>)
        ensures
            r matches Err(e) && e == FsError::NoAttributeData,
    {
        Err(FsError::NoAttributeData)
    }

    /// Prepares the file system for use with what the store listed: the keys
    /// become the snapshot. Without a key list there is no file system: a
    /// listing that failed is an input or output failure, and so is one with
    /// more keys than `MAX_KEYS`. A failure changes nothing.
    pub fn init(&mut self, listed: Result<Vec<String>, ClientError>) -> (r: Result<(), FsError>)
        requires
            old(self).wf(),
        ensures
            final(self).wf(),
            final(self).cache() == old(self).cache(),
            final(self).client() == old(self).client(),
            match listed {
                Ok(keys) if keys@.len() <= MAX_KEYS => {
                    &&& r == Ok::<(), FsError>(())
                    &&& final(self).keys() == views(keys@)
                    &&& final(self).table() == allocate_all(
                        seq![root()],
                        visit_order(views(keys@)),
                    )
                    &&& final(self).listings() == Map::<u64, Seq<DirEntryView>>::empty()
                },
                _ => {
                    &&& r == Err::<(), FsError>(FsError::IoFailure)
                    &&& final(self).same_snapshot(*old(self))
                },
            },
    {
        match listed {
            Ok(keys) => {
                if keys.len() as u64 > MAX_KEYS {
                    return Err(FsError::IoFailure);
                }
                self.refresh_object_list(keys);
                Ok(())
            },
            Err(_) => Err(FsError::IoFailure),
        }
    }

    /// How much the cache holds: the number of entries of the metadata tier,
    /// and the number of files of the content tier as the caller counted
    /// them.
    pub fn get_stats(&self, content_cache_size: usize) -> (stats: CacheStats)
        ensures
            stats.metadata_cache_size == self.cache().entries().len(),
            stats.content_cache_size == content_cache_size,
    {
        self.cache.get_stats(content_cache_size)
    }

    /// Lets go of what the cache holds in memory. The snapshot stays.
    pub fn destroy(&mut self)
        requires
            old(self).wf(),
        ensures
            final(self).wf(),
            final(self).same_snapshot(*old(self)),
            final(self).cache().entries() == Seq::<(Seq<char>, ObjectMetaView)>::empty(),
    {
        self.cache.clear();
    }
}

} // verus!
