//! The filesystem state machine: the inode table, the directory tree, the
//! parent back-edges and the per-file ciphertext store, together with the
//! request handlers the transport dispatches.
//!
//! Inode `i` lives at index `i - 1` of the node table; the root directory
//! is inode 1 and exists from construction on. Inode numbers are drawn
//! from the table length, so they are never reused.

use vstd::prelude::*;

use crate::attrs::FileKind;
use crate::attrs::FsError;
use crate::attrs::InodeAttr;
use crate::attrs::ReadDirRow;
use crate::attrs::StatfsReply;
use crate::cryption::frame_plain_of;
use crate::cryption::stored_plain;
use crate::cryption::FRAME_OVERHEAD;
use crate::dirents::dir_contains;
use crate::dirents::dir_lookup;
use crate::dirents::entries_sorted;
use crate::dirents::lex_lt;
use crate::dirents::DirEntry;
use crate::hexview::hex_of;

verus! {

/// What one inode holds besides its attributes: a directory's entry list
/// or a regular file's ciphertext blob.
pub enum NodeContent {
    Dir { entries: Vec<DirEntry> },
    File { data: Vec<u8> },
}

/// One inode: its attribute record, the inode of its containing directory
/// (the root is its own parent), and its content.
pub struct Node {
    pub attr: InodeAttr,
    pub parent: u64,
    pub content: NodeContent,
}

/// The filesystem state machine. `nodes[i]` is inode `i + 1`.
pub struct KriptoFs {
    pub key: Vec<u8>,
    pub nodes: Vec<Node>,
}

/// The plaintext after writing `data` at `offset` into `p`: `p` is
/// zero-extended to `offset + |data|` where it falls short, and `data` is
/// overlaid there.
pub open spec fn splice_plain(p: Seq<u8>, offset: int, data: Seq<u8>) -> Seq<u8> {
    let n = if p.len() >= offset + data.len() {
        p.len() as int
    } else {
        offset + data.len()
    };
    Seq::new(
        n as nat,
        |i: int|
            if offset <= i < offset + data.len() {
                data[i - offset]
            } else if i < p.len() {
                p[i]
            } else {
                0u8
            },
    )
}

/// A byte string cut or zero-padded to length `n`.
pub open spec fn resize_blob(b: Seq<u8>, n: int) -> Seq<u8>
    recommends
        n >= 0,
{
    Seq::new(n as nat, |i: int| if i < b.len() { b[i] } else { 0u8 })
}

/// `a` with its `size` field replaced by `s`.
pub open spec fn attr_with_size(a: InodeAttr, s: u64) -> InodeAttr {
    InodeAttr { size: s, ..a }
}

/// The attribute record a directory made by `mkdir` is born with: fixed
/// owner 501:20, permission 0o755, link count 2, all stamps at `now`.
pub open spec fn mkdir_attr_spec(ino: u64, now: u64) -> InodeAttr {
    InodeAttr {
        ino,
        size: 0,
        blocks: 0,
        atime: now,
        mtime: now,
        ctime: now,
        crtime: now,
        kind: FileKind::Directory,
        perm: 0o755,
        nlink: 2,
        uid: 501,
        gid: 20,
        rdev: 0,
        flags: 0,
        blksize: 512,
    }
}

/// The attribute record a file made by `create` is born with: the caller
/// as owner, permission 0o644, link count 1, all stamps at `now`.
pub open spec fn create_attr_spec(ino: u64, now: u64, uid: u32, gid: u32) -> InodeAttr {
    InodeAttr {
        ino,
        size: 0,
        blocks: 0,
        atime: now,
        mtime: now,
        ctime: now,
        crtime: now,
        kind: FileKind::RegularFile,
        perm: 0o644,
        nlink: 1,
        uid,
        gid,
        rdev: 0,
        flags: 0,
        blksize: 512,
    }
}

/// The attribute record the root directory is born with.
pub open spec fn root_attr_spec() -> InodeAttr {
    InodeAttr {
        ino: 1,
        size: 0,
        blocks: 0,
        atime: 0,
        mtime: 0,
        ctime: 0,
        crtime: 0,
        kind: FileKind::Directory,
        perm: 0o755,
        nlink: 2,
        uid: 501,
        gid: 20,
        rdev: 0,
        flags: 0,
        blksize: 512,
    }
}

impl KriptoFs {
    /// How many inodes exist.
    pub open spec fn count(self) -> int {
        self.nodes@.len() as int
    }

    /// Whether an inode number is allocated.
    pub open spec fn has_ino(self, ino: u64) -> bool {
        1 <= ino <= self.nodes@.len()
    }

    /// The node of an allocated inode.
    pub open spec fn node_of(self, ino: u64) -> Node
        recommends
            self.has_ino(ino),
    {
        self.nodes@[ino - 1]
    }

    /// The attribute record of an allocated inode.
    pub open spec fn attr_of(self, ino: u64) -> InodeAttr
        recommends
            self.has_ino(ino),
    {
        self.node_of(ino).attr
    }

    /// The containing directory of an allocated inode.
    pub open spec fn parent_of(self, ino: u64) -> u64
        recommends
            self.has_ino(ino),
    {
        self.node_of(ino).parent
    }

    /// Whether `ino` is an allocated directory.
    pub open spec fn is_dir(self, ino: u64) -> bool {
        self.has_ino(ino) && self.node_of(ino).content is Dir
    }

    /// Whether `ino` is an allocated regular file.
    pub open spec fn is_file(self, ino: u64) -> bool {
        self.has_ino(ino) && self.node_of(ino).content is File
    }

    /// The stored ciphertext blob of a regular file.
    pub open spec fn data_of(self, ino: u64) -> Seq<u8>
        recommends
            self.is_file(ino),
    {
        self.node_of(ino).content->data@
    }

    /// The entry list of a directory.
    pub open spec fn entries_of(self, ino: u64) -> Seq<DirEntry>
        recommends
            self.is_dir(ino),
    {
        self.node_of(ino).content->entries@
    }

    /// What the directory tree maps `name` to under `parent`; misses when
    /// `parent` is no allocated directory, as the handlers do.
    pub open spec fn lookup_ino(self, parent: u64, name: Seq<u8>) -> Option<u64> {
        if self.is_dir(parent) {
            dir_lookup(self.entries_of(parent), name)
        } else {
            None
        }
    }

    /// Well-formedness of one node: its recorded inode number matches its
    /// slot, its parent is an allocated directory, its kind agrees with
    /// its content, and a file's recorded size is its blob length.
    pub open spec fn wf_node(self, i: int) -> bool
        recommends
            0 <= i < self.count(),
    {
        let n = self.nodes@[i];
        &&& n.attr.ino == i + 1
        &&& 1 <= n.parent <= self.count()
        &&& self.nodes@[n.parent - 1].content is Dir
        &&& (n.content is Dir <==> n.attr.kind == FileKind::Directory)
        &&& (n.content is File <==> n.attr.kind == FileKind::RegularFile)
        &&& (n.content is File ==> n.attr.size == n.content->data@.len())
    }

    /// Well-formedness of one directory's entry list: strictly sorted by
    /// name, each entry naming an allocated non-root child whose parent
    /// back-edge points here, no child named twice, and strictly fewer
    /// entries than there are inodes.
    pub open spec fn wf_dir(self, i: int) -> bool
        recommends
            0 <= i < self.count(),
    {
        self.nodes@[i].content is Dir ==> {
            let es = self.nodes@[i].content->entries@;
            &&& entries_sorted(es)
            &&& es.len() < self.count()
            &&& forall|j: int|
                0 <= j < es.len() ==> 2 <= (#[trigger] es[j].ino) <= self.count()
            &&& forall|j: int|
                0 <= j < es.len() ==> self.nodes@[(#[trigger] es[j].ino) - 1].parent == i + 1
            &&& forall|j: int, k: int|
                0 <= j < k < es.len() ==> (#[trigger] es[j].ino) != (#[trigger] es[k].ino)
        }
    }

    /// Every inode but the root appears in its parent's entry list.
    pub open spec fn wf_linked(self, i: int) -> bool
        recommends
            0 <= i < self.count(),
    {
        i >= 1 ==> {
            let es = self.nodes@[self.nodes@[i].parent - 1].content->entries@;
            exists|j: int| 0 <= j < es.len() && (#[trigger] es[j].ino) == i + 1
        }
    }

    /// The root directory exists, is a directory, and is its own parent.
    pub open spec fn wf_root(self) -> bool {
        &&& self.count() >= 1
        &&& self.count() < 0x7fff_ffff_ffff_ffff
        &&& self.nodes@[0].parent == 1
        &&& self.nodes@[0].content is Dir
    }

    /// The structural invariant every handler preserves.
    pub open spec fn wf(self) -> bool {
        &&& self.key@.len() == 32
        &&& self.wf_root()
        &&& forall|i: int| 0 <= i < self.count() ==> #[trigger] self.wf_node(i)
        &&& forall|i: int| 0 <= i < self.count() ==> #[trigger] self.wf_dir(i)
        &&& forall|i: int| 0 <= i < self.count() ==> #[trigger] self.wf_linked(i)
    }

    /// One file's blob is either empty or a well-framed blob that opens
    /// under the process key.
    pub open spec fn file_ok(self, i: int) -> bool
        recommends
            0 <= i < self.count(),
    {
        self.nodes@[i].content is File ==> {
            let d = self.nodes@[i].content->data@;
            d.len() == 0 || (d.len() >= FRAME_OVERHEAD && frame_plain_of(self.key@, d) is Some)
        }
    }

    /// Every stored blob decrypts under the process key (or is empty).
    /// Every handler but a size-changing setattr preserves this.
    pub open spec fn crypto_ok(self) -> bool {
        forall|i: int| 0 <= i < self.count() ==> #[trigger] self.file_ok(i)
    }

    /// The entry list of a directory, viewed as a sequence of
    /// name-and-inode pairs in iteration order.
    pub open spec fn dir_seq(self, ino: u64) -> Seq<(Seq<u8>, u64)>
        recommends
            self.is_dir(ino),
    {
        Seq::new(
            self.entries_of(ino).len(),
            |j: int| (self.entries_of(ino)[j].name@, self.entries_of(ino)[j].ino),
        )
    }

    /// A fresh store: the root directory alone, no files, under `key`.
    pub fn new(key: Vec<u8>) -> (fs: KriptoFs)
        requires
            key@.len() == 32,
        ensures
            fs.wf(),
            fs.crypto_ok(),
            fs.count() == 1,
            fs.key@ == key@,
            fs.attr_of(1) == root_attr_spec(),
            fs.entries_of(1).len() == 0,
    {
        let root = Node {
            attr: InodeAttr {
                ino: 1,
                size: 0,
                blocks: 0,
                atime: 0,
                mtime: 0,
                ctime: 0,
                crtime: 0,
                kind: FileKind::Directory,
                perm: 0o755,
                nlink: 2,
                uid: 501,
                gid: 20,
                rdev: 0,
                flags: 0,
                blksize: 512,
            },
            parent: 1,
            content: NodeContent::Dir { entries: Vec::new() },
        };
        let mut nodes: Vec<Node> = Vec::new();
        nodes.push(root);
        let fs = KriptoFs { key, nodes };
        proof {
            assert(fs.wf_node(0));
            assert(fs.wf_dir(0));
            assert(fs.wf_linked(0));
            assert(fs.file_ok(0));
            assert forall|i: int| 0 <= i < fs.count() implies #[trigger] fs.wf_node(i) by {}
            assert forall|i: int| 0 <= i < fs.count() implies #[trigger] fs.wf_dir(i) by {}
            assert forall|i: int| 0 <= i < fs.count() implies #[trigger] fs.wf_linked(i) by {}
            assert forall|i: int| 0 <= i < fs.count() implies #[trigger] fs.file_ok(i) by {}
        }
        fs
    }

    /// Resolve `name` under `parent`: the child's attribute record on a
    /// hit; a miss — also when `parent` is no allocated directory — is
    /// reported as not found.
    pub fn lookup(&self, parent: u64, name: &[u8]) -> (r: Result<InodeAttr, FsError>)
        requires
            self.wf(),
        ensures
            (match self.lookup_ino(parent, name@) {
                Some(ino) => r == Ok::<InodeAttr, FsError>(self.attr_of(ino)),
                None => r == Err::<InodeAttr, FsError>(FsError::NotFound),
            }),
    {
        if parent < 1 || parent > self.nodes.len() as u64 {
            return Err(FsError::NotFound);
        }
        let pidx = (parent - 1) as usize;
        match &self.nodes[pidx].content {
            NodeContent::Dir { entries } => {
                match crate::dirents::find_name(entries, name) {
                    Some(idx) => {
                        let ino = entries[idx].ino;
                        proof {
                            assert(self.wf_dir(pidx as int));
                        }
                        let attr = self.nodes[(ino - 1) as usize].attr;
                        Ok(attr)
                    },
                    None => Err(FsError::NotFound),
                }
            },
            NodeContent::File { .. } => Err(FsError::NotFound),
        }
    }

    /// The attribute record of `ino`, or not found.
    pub fn getattr(&self, ino: u64) -> (r: Result<InodeAttr, FsError>)
        requires
            self.wf(),
        ensures
            (match r {
                Ok(attr) => self.has_ino(ino) && attr == self.attr_of(ino),
                Err(e) => e == FsError::NotFound && !self.has_ino(ino),
            }),
    {
        if ino < 1 || ino > self.nodes.len() as u64 {
            return Err(FsError::NotFound);
        }
        Ok(self.nodes[(ino - 1) as usize].attr)
    }

    /// What attaching one fresh node under `parent` as `name` does to the
    /// state: one more inode holding exactly `node`, the parent's mapping
    /// extended at `name` and untouched elsewhere, every other node as it
    /// was.
    pub open spec fn attach_ok(pre: Self, post: Self, parent: u64, name: Seq<u8>, node: Node) -> bool {
        let ino = node.attr.ino;
        &&& post.count() == pre.count() + 1
        &&& post.key@ == pre.key@
        &&& post.node_of(ino) == node
        &&& forall|n: Seq<u8>| #[trigger] post.lookup_ino(parent, n) == (if n == name {
            Some(ino)
        } else {
            pre.lookup_ino(parent, n)
        })
        &&& post.is_dir(parent)
        &&& post.attr_of(parent) == pre.attr_of(parent)
        &&& post.parent_of(parent) == pre.parent_of(parent)
        &&& (exists|i: int|
            0 <= i <= pre.dir_seq(parent).len() && post.dir_seq(parent) == pre.dir_seq(
                parent,
            ).insert(i, (name, ino)))
        &&& forall|o: u64|
            pre.has_ino(o) && o != parent ==> #[trigger] post.node_of(o) == pre.node_of(o)
    }

    /// Attach a freshly allocated empty node under `parent`, entering it
    /// in the parent's list at position `idx`. The shared tail of `mkdir`
    /// and `create`.
    fn attach_node(&mut self, parent: u64, name: &[u8], idx: usize, node: Node)
        requires
            old(self).wf(),
            old(self).count() + 1 < 0x7fff_ffff_ffff_ffff,
            old(self).is_dir(parent),
            forall|j: int|
                0 <= j < old(self).entries_of(parent).len() ==> (#[trigger] old(self).entries_of(
                    parent,
                )[j].name@) != name@,
            idx <= old(self).entries_of(parent).len(),
            forall|j: int|
                0 <= j < idx ==> lex_lt(#[trigger] old(self).entries_of(parent)[j].name@, name@),
            forall|j: int|
                idx <= j < old(self).entries_of(parent).len() ==> lex_lt(
                    name@,
                    #[trigger] old(self).entries_of(parent)[j].name@,
                ),
            node.attr.ino == old(self).count() + 1,
            node.parent == parent,
            (node.content is Dir <==> node.attr.kind == FileKind::Directory),
            (node.content is File <==> node.attr.kind == FileKind::RegularFile),
            (node.content is Dir ==> node.content->entries@.len() == 0),
            (node.content is File ==> node.content->data@.len() == 0),
            node.attr.size == 0,
        ensures
            final(self).wf(),
            old(self).crypto_ok() ==> final(self).crypto_ok(),
            Self::attach_ok(*old(self), *final(self), parent, name@, node),
    {
        let ghost pre = *old(self);
        let ghost saved = node;
        let ino = node.attr.ino;
        let total = self.nodes.len();
        proof {
            assert(1 <= parent && parent <= total as u64);
        }
        let pidx = (parent - 1) as usize;
        self.nodes.push(node);
        let entry = DirEntry { name: vstd::slice::slice_to_vec(name), ino };
        let ghost e_g = entry;
        proof {
            assert(self.nodes@[pidx as int] == pre.nodes@[pidx as int]);
            assert(self.nodes@[pidx as int].content is Dir);
            assert(self.nodes@[pidx as int].content->entries@ == pre.entries_of(parent));
        }
        match &mut self.nodes[pidx].content {
            NodeContent::Dir { entries } => {
                entries.insert(idx, entry);
            },
            NodeContent::File { .. } => {
                proof {
                    assert(false);
                }
            },
        }
        proof {
            let post = *self;
            let cnt = pre.count();
            let pi = parent - 1;
            let es_old = pre.entries_of(parent);
            let es_new = post.entries_of(parent);
            assert(post.nodes@.len() == cnt + 1);
            assert(forall|o: int| 0 <= o < cnt + 1 && o != pi ==> post.nodes@[o] == pre.nodes@.push(
                saved,
            )[o]);
            assert(post.nodes@[cnt] == saved);
            assert(es_new == es_old.insert(idx as int, e_g));
            assert(e_g.name@ == name@);
            assert forall|j: int| 0 <= j < es_new.len() implies es_new[j] == (if j < idx {
                es_old[j]
            } else if j == idx {
                e_g
            } else {
                es_old[j - 1]
            }) by {
                es_old.insert_ensures(idx as int, e_g);
            }
            // the parent keeps its attribute record and back-edge
            assert(post.nodes@[pi].attr == pre.nodes@[pi].attr);
            assert(post.nodes@[pi].parent == pre.nodes@[pi].parent);
            // well-formedness, node by node
            assert forall|i: int| 0 <= i < post.count() implies #[trigger] post.wf_node(i) by {
                if i < cnt {
                    assert(pre.wf_node(i));
                    let p = pre.nodes@[i].parent;
                    assert(post.nodes@[p - 1].content is Dir);
                } else {
                    assert(post.nodes@[i] == saved);
                    assert(post.nodes@[pi].content is Dir);
                }
            }
            assert forall|i: int| 0 <= i < post.count() implies #[trigger] post.wf_dir(i) by {
                if i < cnt && i != pi {
                    assert(pre.wf_dir(i));
                    if post.nodes@[i].content is Dir {
                        let es = post.nodes@[i].content->entries@;
                        assert forall|j: int|
                            0 <= j < es.len() implies self.nodes@[(#[trigger] es[j].ino)
                            - 1].parent == i + 1 by {
                            assert(es[j].ino - 1 != cnt);
                        }
                    }
                } else if i == pi {
                    assert(pre.wf_dir(pi));
                    assert(entries_sorted(es_new)) by {
                        assert forall|j: int, k: int| 0 <= j < k < es_new.len() implies lex_lt(
                            #[trigger] es_new[j].name@,
                            #[trigger] es_new[k].name@,
                        ) by {
                            if j < idx && k < idx {
                            } else if k == idx {
                            } else if j == idx {
                            }
                        }
                    }
                    assert forall|j: int|
                        0 <= j < es_new.len() implies self.nodes@[(#[trigger] es_new[j].ino)
                        - 1].parent == pi + 1 by {
                        if j < idx || j > idx {
                        } else {
                            assert(es_new[j].ino == ino);
                            assert(post.nodes@[cnt].parent == parent);
                        }
                    }
                    assert forall|j: int, k: int|
                        0 <= j < k < es_new.len() implies (#[trigger] es_new[j].ino)
                        != (#[trigger] es_new[k].ino) by {
                        if k == idx {
                            assert(es_new[j].ino <= cnt);
                        } else if j == idx {
                            assert(es_new[k].ino <= cnt);
                        }
                    }
                } else {
                    assert(post.nodes@[i] == saved);
                }
            }
            assert(forall|o: int| 0 <= o < cnt && o != pi ==> post.nodes@[o] == pre.nodes@[o]);
            assert forall|i: int| 0 <= i < post.count() implies #[trigger] post.wf_linked(i) by {
                if 1 <= i < cnt {
                    assert(pre.wf_linked(i));
                    assert(pre.wf_node(i));
                    let p = pre.nodes@[i].parent;
                    assert(post.nodes@[i].parent == p);
                    if p - 1 == pi {
                        let j0 = choose|j: int|
                            0 <= j < es_old.len() && (#[trigger] es_old[j].ino) == i + 1;
                        if j0 < idx {
                            assert(es_new[j0].ino == i + 1);
                        } else {
                            assert(es_new[j0 + 1].ino == i + 1);
                        }
                    } else {
                        assert(post.nodes@[p - 1] == pre.nodes@[p - 1]);
                    }
                } else if i == cnt {
                    assert(post.nodes@[i].parent == parent);
                    assert((idx as int) < es_new.len());
                    assert(es_new[idx as int].ino == i + 1);
                }
            }
            assert(post.wf());
            if pre.crypto_ok() {
                assert forall|i: int| 0 <= i < post.count() implies #[trigger] post.file_ok(i) by {
                    if i < cnt && i != pi {
                        assert(pre.file_ok(i));
                    }
                }
            }
            // the mapping after the insertion
            assert forall|n: Seq<u8>| #[trigger] post.lookup_ino(parent, n) == (if n == name@ {
                Some(ino)
            } else {
                pre.lookup_ino(parent, n)
            }) by {
                crate::dirents::lemma_dir_lookup_insert(es_old, idx as int, e_g, n);
            }
            assert(post.dir_seq(parent) =~= pre.dir_seq(parent).insert(idx as int, (name@, ino)));
            assert(Self::attach_ok(pre, post, parent, name@, saved));
        }
    }

    /// What a successful `mkdir` does: one fresh, empty directory inode
    /// under `parent`, named `name`, with the fixed 501:20 owner; nothing
    /// else moves.
    pub open spec fn mkdir_ok(
        pre: Self,
        post: Self,
        parent: u64,
        name: Seq<u8>,
        now: u64,
        attr: InodeAttr,
    ) -> bool {
        let ino = (pre.count() + 1) as u64;
        &&& pre.is_dir(parent)
        &&& !dir_contains(pre.entries_of(parent), name)
        &&& attr == mkdir_attr_spec(ino, now)
        &&& post.count() == pre.count() + 1
        &&& post.key@ == pre.key@
        &&& post.is_dir(ino)
        &&& post.attr_of(ino) == attr
        &&& post.parent_of(ino) == parent
        &&& post.entries_of(ino).len() == 0
        &&& forall|n: Seq<u8>| #[trigger] post.lookup_ino(parent, n) == (if n == name {
            Some(ino)
        } else {
            pre.lookup_ino(parent, n)
        })
        &&& post.attr_of(parent) == pre.attr_of(parent)
        &&& post.parent_of(parent) == pre.parent_of(parent)
        &&& (exists|i: int|
            0 <= i <= pre.dir_seq(parent).len() && post.dir_seq(parent) == pre.dir_seq(
                parent,
            ).insert(i, (name, ino)))
        &&& forall|o: u64|
            pre.has_ino(o) && o != parent ==> #[trigger] post.node_of(o) == pre.node_of(o)
    }

    /// Make a directory named `name` under `parent`. A name already
    /// present is refused; a parent that is no allocated directory is
    /// reported as not found. The mode and umask arguments are ignored,
    /// as is the caller: a new directory is owned by 501:20.
    pub fn mkdir(
        &mut self,
        parent: u64,
        name: &[u8],
        _mode: u32,
        _umask: u32,
        now: u64,
    ) -> (r: Result<InodeAttr, FsError>)
        requires
            old(self).wf(),
            old(self).count() + 1 < 0x7fff_ffff_ffff_ffff,
        ensures
            final(self).wf(),
            old(self).crypto_ok() ==> final(self).crypto_ok(),
            (match r {
                Ok(attr) => Self::mkdir_ok(*old(self), *final(self), parent, name@, now, attr),
                Err(FsError::NotFound) => !old(self).is_dir(parent) && *final(self) == *old(self),
                Err(FsError::AlreadyExists) => old(self).is_dir(parent) && dir_contains(
                    old(self).entries_of(parent),
                    name@,
                ) && *final(self) == *old(self),
                Err(_) => false,
            }),
    {
        if parent < 1 || parent > self.nodes.len() as u64 {
            return Err(FsError::NotFound);
        }
        let pidx = (parent - 1) as usize;
        let idx: usize;
        match &self.nodes[pidx].content {
            NodeContent::Dir { entries } => {
                match crate::dirents::find_name(entries, name) {
                    Some(_) => {
                        return Err(FsError::AlreadyExists);
                    },
                    None => {
                        proof {
                            assert(self.wf_dir(pidx as int));
                            crate::dirents::lemma_dir_lookup_none(entries@, name@);
                        }
                        idx = crate::dirents::insert_pos(entries, name);
                    },
                }
            },
            NodeContent::File { .. } => {
                return Err(FsError::NotFound);
            },
        }
        let ino = self.nodes.len() as u64 + 1;
        let attr = InodeAttr {
            ino,
            size: 0,
            blocks: 0,
            atime: now,
            mtime: now,
            ctime: now,
            crtime: now,
            kind: FileKind::Directory,
            perm: 0o755,
            nlink: 2,
            uid: 501,
            gid: 20,
            rdev: 0,
            flags: 0,
            blksize: 512,
        };
        let node = Node { attr, parent, content: NodeContent::Dir { entries: Vec::new() } };
        self.attach_node(parent, name, idx, node);
        Ok(attr)
    }

    /// What a successful `create` does: one fresh, empty regular file
    /// inode under `parent`, named `name`, owned by the caller; nothing
    /// else moves.
    pub open spec fn create_ok(
        pre: Self,
        post: Self,
        parent: u64,
        name: Seq<u8>,
        now: u64,
        uid: u32,
        gid: u32,
        attr: InodeAttr,
    ) -> bool {
        let ino = (pre.count() + 1) as u64;
        &&& pre.is_dir(parent)
        &&& !dir_contains(pre.entries_of(parent), name)
        &&& attr == create_attr_spec(ino, now, uid, gid)
        &&& post.count() == pre.count() + 1
        &&& post.key@ == pre.key@
        &&& post.is_file(ino)
        &&& post.attr_of(ino) == attr
        &&& post.parent_of(ino) == parent
        &&& post.data_of(ino).len() == 0
        &&& forall|n: Seq<u8>| #[trigger] post.lookup_ino(parent, n) == (if n == name {
            Some(ino)
        } else {
            pre.lookup_ino(parent, n)
        })
        &&& post.attr_of(parent) == pre.attr_of(parent)
        &&& post.parent_of(parent) == pre.parent_of(parent)
        &&& (exists|i: int|
            0 <= i <= pre.dir_seq(parent).len() && post.dir_seq(parent) == pre.dir_seq(
                parent,
            ).insert(i, (name, ino)))
        &&& forall|o: u64|
            pre.has_ino(o) && o != parent ==> #[trigger] post.node_of(o) == pre.node_of(o)
    }

    /// Create an empty regular file named `name` under `parent`, owned by
    /// the calling `uid`:`gid`. A name already present is refused; a
    /// parent that is no allocated directory is reported as not found.
    /// The mode, umask and flags arguments are ignored.
    pub fn create(
        &mut self,
        uid: u32,
        gid: u32,
        parent: u64,
        name: &[u8],
        _mode: u32,
        _umask: u32,
        _flags: i32,
        now: u64,
    ) -> (r: Result<InodeAttr, FsError>)
        requires
            old(self).wf(),
            old(self).count() + 1 < 0x7fff_ffff_ffff_ffff,
        ensures
            final(self).wf(),
            old(self).crypto_ok() ==> final(self).crypto_ok(),
            (match r {
                Ok(attr) => Self::create_ok(
                    *old(self),
                    *final(self),
                    parent,
                    name@,
                    now,
                    uid,
                    gid,
                    attr,
                ),
                Err(FsError::NotFound) => !old(self).is_dir(parent) && *final(self) == *old(self),
                Err(FsError::AlreadyExists) => old(self).is_dir(parent) && dir_contains(
                    old(self).entries_of(parent),
                    name@,
                ) && *final(self) == *old(self),
                Err(_) => false,
            }),
    {
        if parent < 1 || parent > self.nodes.len() as u64 {
            return Err(FsError::NotFound);
        }
        let pidx = (parent - 1) as usize;
        let idx: usize;
        match &self.nodes[pidx].content {
            NodeContent::Dir { entries } => {
                match crate::dirents::find_name(entries, name) {
                    Some(_) => {
                        return Err(FsError::AlreadyExists);
                    },
                    None => {
                        proof {
                            assert(self.wf_dir(pidx as int));
                            crate::dirents::lemma_dir_lookup_none(entries@, name@);
                        }
                        idx = crate::dirents::insert_pos(entries, name);
                    },
                }
            },
            NodeContent::File { .. } => {
                return Err(FsError::NotFound);
            },
        }
        let ino = self.nodes.len() as u64 + 1;
        let attr = InodeAttr {
            ino,
            size: 0,
            blocks: 0,
            atime: now,
            mtime: now,
            ctime: now,
            crtime: now,
            kind: FileKind::RegularFile,
            perm: 0o644,
            nlink: 1,
            uid,
            gid,
            rdev: 0,
            flags: 0,
            blksize: 512,
        };
        let node = Node { attr, parent, content: NodeContent::File { data: Vec::new() } };
        self.attach_node(parent, name, idx, node);
        Ok(attr)
    }

    /// What a successful `write` does: the file's blob is replaced by a
    /// fresh frame sealing the spliced plaintext, its recorded size
    /// follows the new blob length, and nothing else moves.
    pub open spec fn write_ok(pre: Self, post: Self, ino: u64, offset: int, data: Seq<u8>) -> bool {
        let plain0 = stored_plain(pre.key@, pre.data_of(ino))->0;
        let plain1 = splice_plain(plain0, offset, data);
        &&& pre.is_file(ino)
        &&& stored_plain(pre.key@, pre.data_of(ino)) is Some
        &&& post.count() == pre.count()
        &&& post.key@ == pre.key@
        &&& post.is_file(ino)
        &&& post.data_of(ino).len() == plain1.len() + FRAME_OVERHEAD
        &&& stored_plain(post.key@, post.data_of(ino)) == Some(plain1)
        &&& post.attr_of(ino) == attr_with_size(
            pre.attr_of(ino),
            (plain1.len() + FRAME_OVERHEAD) as u64,
        )
        &&& post.parent_of(ino) == pre.parent_of(ino)
        &&& forall|o: u64|
            pre.has_ino(o) && o != ino ==> #[trigger] post.node_of(o) == pre.node_of(o)
    }

    /// Write `data` at byte `offset`: decrypt the stored blob (an empty
    /// blob stands for an empty plaintext), overlay `data` on the
    /// zero-extended plaintext, seal the result under a fresh nonce, and
    /// record the new blob length as the file size. A blob that will not
    /// decrypt, or a refused encryption, leaves the state untouched.
    /// No ownership check is made.
    pub fn write(&mut self, ino: u64, offset: usize, data: &[u8]) -> (r: Result<u32, FsError>)
        requires
            old(self).wf(),
            offset + data@.len() <= usize::MAX,
            data@.len() <= u32::MAX,
        ensures
            final(self).wf(),
            old(self).crypto_ok() ==> final(self).crypto_ok(),
            (match r {
                Ok(n) => n == data@.len() && Self::write_ok(
                    *old(self),
                    *final(self),
                    ino,
                    offset as int,
                    data@,
                ),
                Err(FsError::NotFound) => !old(self).is_file(ino) && *final(self) == *old(self),
                Err(FsError::IoError) => old(self).is_file(ino) && *final(self) == *old(self),
                Err(_) => false,
            }),
    {
        let ghost pre = *old(self);
        if ino < 1 || ino > self.nodes.len() as u64 {
            return Err(FsError::NotFound);
        }
        let idx = (ino - 1) as usize;
        let plain: Vec<u8>;
        match &self.nodes[idx].content {
            NodeContent::File { data: blob } => {
                if blob.len() == 0 {
                    plain = Vec::new();
                } else {
                    match crate::cryption::decrypt_message(self.key.as_slice(), blob.as_slice()) {
                        Ok(p) => {
                            plain = p;
                        },
                        Err(_) => {
                            return Err(FsError::IoError);
                        },
                    }
                }
            },
            NodeContent::Dir { .. } => {
                return Err(FsError::NotFound);
            },
        }
        proof {
            assert(stored_plain(pre.key@, pre.data_of(ino)) == Some(plain@));
        }
        let new_plain = build_spliced(&plain, offset, data);
        let blob2: Vec<u8>;
        match crate::cryption::encrypt_message(self.key.as_slice(), new_plain.as_slice()) {
            Ok(b) => {
                blob2 = b;
            },
            Err(_) => {
                return Err(FsError::IoError);
            },
        }
        let new_size = blob2.len() as u64;
        let ghost blob2_g = blob2@;
        match &mut self.nodes[idx].content {
            NodeContent::File { data: blob } => {
                *blob = blob2;
            },
            NodeContent::Dir { .. } => {
                proof {
                    assert(false);
                }
            },
        }
        self.nodes[idx].attr.size = new_size;
        proof {
            let post = *self;
            let cnt = pre.count();
            assert(post.nodes@.len() == cnt);
            assert(forall|o: int| 0 <= o < cnt && o != idx ==> post.nodes@[o] == pre.nodes@[o]);
            assert(post.nodes@[idx as int].attr == attr_with_size(
                pre.nodes@[idx as int].attr,
                new_size,
            ));
            assert(post.nodes@[idx as int].parent == pre.nodes@[idx as int].parent);
            assert(post.nodes@[idx as int].content is File);
            assert(post.nodes@[idx as int].content->data@ == blob2_g);
            assert forall|i: int| 0 <= i < post.count() implies #[trigger] post.wf_node(i) by {
                assert(pre.wf_node(i));
                let p = pre.nodes@[i].parent;
                assert(post.nodes@[p - 1].content is Dir ==> true);
                if p - 1 == idx {
                    assert(pre.nodes@[idx as int].content is File);
                    assert(false);
                }
            }
            assert forall|i: int| 0 <= i < post.count() implies #[trigger] post.wf_dir(i) by {
                assert(pre.wf_dir(i));
                if post.nodes@[i].content is Dir {
                    assert(i != idx);
                    let es = post.nodes@[i].content->entries@;
                    assert forall|j: int|
                        0 <= j < es.len() implies post.nodes@[(#[trigger] es[j].ino)
                        - 1].parent == i + 1 by {
                        assert(post.nodes@[es[j].ino - 1].parent == pre.nodes@[es[j].ino
                            - 1].parent);
                    }
                }
            }
            assert forall|i: int| 0 <= i < post.count() implies #[trigger] post.wf_linked(i) by {
                assert(pre.wf_linked(i));
                if i >= 1 {
                    let p = pre.nodes@[i].parent;
                    assert(pre.wf_node(i));
                    assert(post.nodes@[i].parent == p);
                    assert(post.nodes@[p - 1].content->entries@ == pre.nodes@[p
                        - 1].content->entries@);
                }
            }
            assert(post.wf());
            if pre.crypto_ok() {
                assert forall|i: int| 0 <= i < post.count() implies #[trigger] post.file_ok(i) by {
                    if i != idx {
                        assert(pre.file_ok(i));
                    }
                }
            }
            assert(Self::write_ok(pre, post, ino, offset as int, data@));
        }
        Ok(data.len() as u32)
    }

    /// Read from byte `offset` of the stored blob. Past-the-end reads
    /// return an empty buffer. The file's owner gets the tail of the blob
    /// decrypted (which can only succeed when the tail is a whole frame,
    /// i.e. at offset 0 of a non-empty file); anyone else gets the
    /// uppercase hexadecimal rendering of the tail, itself sliced from
    /// `offset` on. The requested size is not honoured here; the
    /// transport truncates. The state does not change.
    pub fn read(&self, caller_uid: u32, ino: u64, offset: usize, _size: u32) -> (r: Result<
        Vec<u8>,
        FsError,
    >)
        requires
            self.wf(),
        ensures
            (match r {
                Ok(out) => self.is_file(ino) && {
                    let blob = self.data_of(ino);
                    if offset >= blob.len() {
                        out@ == Seq::<u8>::empty()
                    } else if caller_uid == self.attr_of(ino).uid {
                        frame_plain_of(self.key@, blob.skip(offset as int)) == Some(out@)
                    } else {
                        let hex = hex_of(blob.skip(offset as int));
                        out@ == (if offset <= hex.len() {
                            hex.skip(offset as int)
                        } else {
                            Seq::<u8>::empty()
                        })
                    }
                },
                Err(FsError::NotFound) => !self.is_file(ino),
                Err(FsError::IoError) => {
                    &&& self.is_file(ino)
                    &&& offset < self.data_of(ino).len()
                    &&& caller_uid == self.attr_of(ino).uid
                    &&& frame_plain_of(self.key@, self.data_of(ino).skip(offset as int)) is None
                },
                Err(_) => false,
            }),
    {
        if ino < 1 || ino > self.nodes.len() as u64 {
            return Err(FsError::NotFound);
        }
        let idx = (ino - 1) as usize;
        let owner = self.nodes[idx].attr.uid;
        match &self.nodes[idx].content {
            NodeContent::File { data: blob } => {
                if offset >= blob.len() {
                    return Ok(Vec::new());
                }
                let tail = vstd::slice::slice_subrange(blob.as_slice(), offset, blob.len());
                proof {
                    assert(tail@ =~= self.data_of(ino).skip(offset as int));
                }
                if caller_uid == owner {
                    match crate::cryption::decrypt_message(self.key.as_slice(), tail) {
                        Ok(plain) => Ok(plain),
                        Err(_) => Err(FsError::IoError),
                    }
                } else {
                    let hex_bytes = crate::hexview::to_hex_upper(tail);
                    if offset <= hex_bytes.len() {
                        let sliced = vstd::slice::slice_subrange(
                            hex_bytes.as_slice(),
                            offset,
                            hex_bytes.len(),
                        );
                        let out = vstd::slice::slice_to_vec(sliced);
                        proof {
                            assert(out@ =~= hex_of(self.data_of(ino).skip(offset as int)).skip(
                                offset as int,
                            ));
                        }
                        Ok(out)
                    } else {
                        Ok(Vec::new())
                    }
                }
            },
            NodeContent::Dir { .. } => Err(FsError::NotFound),
        }
    }

    /// What a successful `setattr` does: with a size given, the blob of a
    /// regular file is cut or zero-padded to that raw length and the
    /// recorded size follows it (for a directory only the recorded size
    /// moves); without one, nothing moves. Every other field of the
    /// request is ignored.
    pub open spec fn setattr_ok(
        pre: Self,
        post: Self,
        ino: u64,
        size: Option<u64>,
        attr: InodeAttr,
    ) -> bool {
        match size {
            None => post == pre && attr == pre.attr_of(ino),
            Some(s) => {
                &&& attr == attr_with_size(pre.attr_of(ino), s)
                &&& post.count() == pre.count()
                &&& post.key@ == pre.key@
                &&& post.attr_of(ino) == attr
                &&& post.parent_of(ino) == pre.parent_of(ino)
                &&& (pre.is_file(ino) ==> post.is_file(ino) && post.data_of(ino) == resize_blob(
                    pre.data_of(ino),
                    s as int,
                ))
                &&& (pre.is_dir(ino) ==> post.is_dir(ino) && post.entries_of(ino)
                    == pre.entries_of(ino))
                &&& forall|o: u64|
                    pre.has_ino(o) && o != ino ==> #[trigger] post.node_of(o) == pre.node_of(o)
            },
        }
    }

    /// Change attributes: only the owner may; only a given size has any
    /// effect, resizing the raw ciphertext blob itself (so a non-empty
    /// file truncated to any length but 0 or its own no longer decrypts).
    pub fn setattr(
        &mut self,
        caller_uid: u32,
        ino: u64,
        _mode: Option<u32>,
        _uid: Option<u32>,
        _gid: Option<u32>,
        size: Option<u64>,
    ) -> (r: Result<InodeAttr, FsError>)
        requires
            old(self).wf(),
            (match size {
                Some(s) => s <= usize::MAX,
                None => true,
            }),
        ensures
            final(self).wf(),
            (old(self).crypto_ok() && (match size {
                None => true,
                Some(s) => !old(self).is_file(ino) || s == 0 || s == old(self).data_of(ino).len(),
            })) ==> final(self).crypto_ok(),
            (match r {
                Ok(attr) => old(self).has_ino(ino) && caller_uid == old(self).attr_of(ino).uid
                    && Self::setattr_ok(*old(self), *final(self), ino, size, attr),
                Err(FsError::NotFound) => !old(self).has_ino(ino) && *final(self) == *old(self),
                Err(FsError::PermissionDenied) => old(self).has_ino(ino) && caller_uid != old(
                    self,
                ).attr_of(ino).uid && *final(self) == *old(self),
                Err(_) => false,
            }),
    {
        let ghost pre = *old(self);
        if ino < 1 || ino > self.nodes.len() as u64 {
            return Err(FsError::NotFound);
        }
        let idx = (ino - 1) as usize;
        if caller_uid != self.nodes[idx].attr.uid {
            return Err(FsError::PermissionDenied);
        }
        let new_size: u64;
        match size {
            Some(s) => {
                new_size = s;
            },
            None => {
                let attr = self.nodes[idx].attr;
                return Ok(attr);
            },
        }
        match &mut self.nodes[idx].content {
            NodeContent::File { data: blob } => {
                resize_bytes(blob, new_size as usize);
            },
            NodeContent::Dir { .. } => {},
        }
        self.nodes[idx].attr.size = new_size;
        let attr = self.nodes[idx].attr;
        proof {
            let post = *self;
            let cnt = pre.count();
            assert(post.nodes@.len() == cnt);
            assert(forall|o: int| 0 <= o < cnt && o != idx ==> post.nodes@[o] == pre.nodes@[o]);
            assert(post.nodes@[idx as int].attr == attr_with_size(
                pre.nodes@[idx as int].attr,
                new_size,
            ));
            assert(post.nodes@[idx as int].parent == pre.nodes@[idx as int].parent);
            assert forall|i: int| 0 <= i < post.count() implies #[trigger] post.wf_node(i) by {
                assert(pre.wf_node(i));
                let p = pre.nodes@[i].parent;
                if p - 1 == idx {
                    assert(post.nodes@[idx as int].content is Dir == pre.nodes@[idx as int].content
                        is Dir);
                }
            }
            assert forall|i: int| 0 <= i < post.count() implies #[trigger] post.wf_dir(i) by {
                assert(pre.wf_dir(i));
                if post.nodes@[i].content is Dir {
                    let es = post.nodes@[i].content->entries@;
                    assert(es == pre.nodes@[i].content->entries@);
                    assert forall|j: int|
                        0 <= j < es.len() implies post.nodes@[(#[trigger] es[j].ino)
                        - 1].parent == i + 1 by {
                        assert(post.nodes@[es[j].ino - 1].parent == pre.nodes@[es[j].ino
                            - 1].parent);
                    }
                }
            }
            assert forall|i: int| 0 <= i < post.count() implies #[trigger] post.wf_linked(i) by {
                assert(pre.wf_linked(i));
                if i >= 1 {
                    let p = pre.nodes@[i].parent;
                    assert(pre.wf_node(i));
                    assert(post.nodes@[i].parent == p);
                    assert(post.nodes@[p - 1].content->entries@ == pre.nodes@[p
                        - 1].content->entries@);
                }
            }
            assert(post.wf());
            if pre.crypto_ok() && (pre.is_file(ino) ==> new_size == 0 || new_size
                == pre.data_of(ino).len()) {
                assert forall|i: int| 0 <= i < post.count() implies #[trigger] post.file_ok(i) by {
                    if i != idx {
                        assert(pre.file_ok(i));
                    } else {
                        assert(pre.file_ok(i));
                        if post.nodes@[i].content is File {
                            let d0 = pre.nodes@[i].content->data@;
                            let d1 = post.nodes@[i].content->data@;
                            if new_size == d0.len() {
                                assert(d1 =~= d0);
                            }
                        }
                    }
                }
            }
            assert(Self::setattr_ok(pre, post, ino, size, attr));
        }
        Ok(attr)
    }

    /// The number of inodes, for callers that must test the allocation
    /// headroom before asking for a new one.
    pub fn node_count(&self) -> (n: usize)
        ensures
            n == self.count(),
    {
        self.nodes.len()
    }

    /// The stored blob bytes of the first `upto` inodes, summed.
    pub open spec fn total_data_len(self, upto: int) -> int
        decreases upto,
    {
        if upto <= 0 {
            0
        } else {
            self.total_data_len(upto - 1) + (if self.nodes@[upto - 1].content is File {
                self.nodes@[upto - 1].content->data@.len() as int
            } else {
                0
            })
        }
    }

    /// The usage report: 2 GiB of 512-byte blocks in all, used blocks the
    /// stored blob bytes summed and rounded up to whole blocks, a pool of
    /// one million inodes.
    pub open spec fn statfs_spec(self) -> StatfsReply {
        let used = (self.total_data_len(self.count()) + 511) / 512;
        let bfree = if used > 4194304 {
            0u64
        } else {
            (4194304 - used) as u64
        };
        StatfsReply {
            blocks: 4194304,
            bfree,
            bavail: bfree,
            files: 1000000,
            ffree: if self.count() > 1000000 {
                0u64
            } else {
                (1000000 - self.count()) as u64
            },
            bsize: 512,
            namelen: 255,
            frsize: 512,
        }
    }

    /// Report the filesystem usage.
    pub fn statfs(&self) -> (r: StatfsReply)
        requires
            self.wf(),
        ensures
            r == self.statfs_spec(),
    {
        let total = self.nodes.len();
        let mut used_bytes: u128 = 0;
        let mut i: usize = 0;
        while i < total
            invariant
                total == self.count(),
                i <= total,
                used_bytes == self.total_data_len(i as int),
                used_bytes <= (i as u128) * 0x1_0000_0000_0000_0000,
            decreases total - i,
        {
            match &self.nodes[i].content {
                NodeContent::File { data } => {
                    let l = data.len();
                    proof {
                        assert(((i + 1) as u128) * 0x1_0000_0000_0000_0000 == (i as u128)
                            * 0x1_0000_0000_0000_0000 + 0x1_0000_0000_0000_0000) by (nonlinear_arith);
                    }
                    used_bytes = used_bytes + l as u128;
                },
                NodeContent::Dir { .. } => {
                    proof {
                        assert(((i + 1) as u128) * 0x1_0000_0000_0000_0000 == (i as u128)
                            * 0x1_0000_0000_0000_0000 + 0x1_0000_0000_0000_0000) by (nonlinear_arith);
                    }
                },
            }
            i = i + 1;
        }
        proof {
            assert((total as u128) * 0x1_0000_0000_0000_0000 <= 0x8000_0000_0000_0000
                * 0x1_0000_0000_0000_0000) by (nonlinear_arith)
                requires
                    total as u128 <= 0x8000_0000_0000_0000,
            ;
        }
        let used_blocks: u128 = (used_bytes + 511) / 512;
        let bfree: u64 = if used_blocks > 4194304 {
            0
        } else {
            4194304 - used_blocks as u64
        };
        let ffree: u64 = if total > 1000000 {
            0
        } else {
            1000000 - total as u64
        };
        StatfsReply {
            blocks: 4194304,
            bfree,
            bavail: bfree,
            files: 1000000,
            ffree,
            bsize: 512,
            namelen: 255,
            frsize: 512,
        }
    }

    /// How many rows a full listing of directory `ino` has: `.` and `..`
    /// and one per child.
    pub open spec fn readdir_len(self, ino: u64) -> int
        recommends
            self.is_dir(ino),
    {
        2 + self.entries_of(ino).len() as int
    }

    /// Row `k` of the full listing of directory `ino`: itself, then its
    /// parent, then its children in entry-list order.
    pub open spec fn readdir_row(self, ino: u64, k: int) -> (u64, FileKind, Seq<u8>)
        recommends
            self.is_dir(ino),
            0 <= k < self.readdir_len(ino),
    {
        if k == 0 {
            (ino, FileKind::Directory, seq![46u8])
        } else if k == 1 {
            (self.parent_of(ino), FileKind::Directory, seq![46u8, 46u8])
        } else {
            let e = self.entries_of(ino)[k - 2];
            (e.ino, self.attr_of(e.ino).kind, e.name@)
        }
    }

    /// What a successful `readdir` returns: the rows of the full listing
    /// from `offset` on, in order, each carrying its 1-based absolute
    /// index as resumption cookie.
    pub open spec fn readdir_ok(self, ino: u64, offset: u64, rows: Seq<ReadDirRow>) -> bool {
        &&& self.is_dir(ino)
        &&& rows.len() == (if offset < self.readdir_len(ino) {
            self.readdir_len(ino) - offset
        } else {
            0
        })
        &&& forall|j: int|
            0 <= j < rows.len() ==> {
                let row = self.readdir_row(ino, offset + j);
                &&& (#[trigger] rows[j]).ino == row.0
                &&& rows[j].kind == row.1
                &&& rows[j].name@ == row.2
                &&& rows[j].cookie == offset + j + 1
            }
    }

    /// List directory `ino` from row `offset` of its full listing on.
    /// Each row carries as cookie its 1-based absolute index, so a
    /// second call with the last cookie as offset resumes after it, and
    /// one whose offset is the last row's cookie returns nothing.
    pub fn readdir(&self, ino: u64, offset: u64) -> (r: Result<Vec<ReadDirRow>, FsError>)
        requires
            self.wf(),
        ensures
            (match r {
                Ok(rows) => self.readdir_ok(ino, offset, rows@),
                Err(FsError::NotFound) => !self.has_ino(ino),
                Err(FsError::NotDirectory) => self.has_ino(ino) && !self.is_dir(ino),
                Err(_) => false,
            }),
    {
        if ino < 1 || ino > self.nodes.len() as u64 {
            return Err(FsError::NotFound);
        }
        let idx = (ino - 1) as usize;
        let parent_ino = self.nodes[idx].parent;
        match &self.nodes[idx].content {
            NodeContent::Dir { entries } => {
                proof {
                    assert(self.wf_dir(idx as int));
                }
                let total: u64 = entries.len() as u64 + 2;
                let mut rows: Vec<ReadDirRow> = Vec::new();
                if offset >= total {
                    return Ok(rows);
                }
                let mut k: u64 = offset;
                while k < total
                    invariant
                        self.wf(),
                        self.is_dir(ino),
                        idx as int == ino - 1,
                        parent_ino == self.parent_of(ino),
                        entries@ == self.entries_of(ino),
                        total == self.readdir_len(ino),
                        offset <= k <= total,
                        total < u64::MAX,
                        rows@.len() == k - offset,
                        forall|j: int|
                            0 <= j < rows@.len() ==> {
                                let row = self.readdir_row(ino, offset + j);
                                &&& (#[trigger] rows@[j]).ino == row.0
                                &&& rows@[j].kind == row.1
                                &&& rows@[j].name@ == row.2
                                &&& rows@[j].cookie == offset + j + 1
                            },
                    decreases total - k,
                {
                    let new_row: ReadDirRow;
                    if k == 0 {
                        let mut dot: Vec<u8> = Vec::new();
                        dot.push(46);
                        proof {
                            assert(dot@ =~= seq![46u8]);
                        }
                        new_row = ReadDirRow { ino, cookie: 1, kind: FileKind::Directory, name: dot };
                    } else if k == 1 {
                        let mut dotdot: Vec<u8> = Vec::new();
                        dotdot.push(46);
                        dotdot.push(46);
                        proof {
                            assert(dotdot@ =~= seq![46u8, 46u8]);
                        }
                        new_row = ReadDirRow {
                            ino: parent_ino,
                            cookie: 2,
                            kind: FileKind::Directory,
                            name: dotdot,
                        };
                    } else {
                        let nlen = self.nodes.len();
                        proof {
                            assert(self.wf_dir(ino - 1));
                            assert(2 <= entries@[k - 2].ino <= self.count());
                        }
                        let e_idx = (k - 2) as usize;
                        let child = entries[e_idx].ino;
                        let kind = self.nodes[(child - 1) as usize].attr.kind;
                        let namev = vstd::slice::slice_to_vec(entries[e_idx].name.as_slice());
                        new_row = ReadDirRow { ino: child, cookie: k + 1, kind, name: namev };
                    }
                    let ghost row_g = new_row;
                    rows.push(new_row);
                    proof {
                        let j_new = k - offset;
                        let row = self.readdir_row(ino, k as int);
                        assert(rows@[j_new as int] == row_g);
                        assert(row_g.ino == row.0);
                        assert(row_g.kind == row.1);
                        assert(row_g.name@ == row.2);
                        assert(row_g.cookie == k + 1);
                    }
                    k = k + 1;
                }
                Ok(rows)
            },
            NodeContent::File { .. } => Err(FsError::NotDirectory),
        }
    }
}

/// Cut or zero-pad a byte vector to length `n`.
fn resize_bytes(v: &mut Vec<u8>, n: usize)
    ensures
        final(v)@ == resize_blob(old(v)@, n as int),
{
    let ghost orig = old(v)@;
    let ghost target = resize_blob(orig, n as int);
    v.truncate(n);
    proof {
        if n <= orig.len() {
            assert(v@ =~= target);
        }
    }
    while v.len() < n
        invariant
            v@.len() <= n,
            n <= v@.len() || orig.len() <= v@.len(),
            target == resize_blob(orig, n as int),
            forall|j: int| 0 <= j < v@.len() ==> v@[j] == target[j],
        decreases n - v@.len(),
    {
        v.push(0);
    }
    assert(v@ =~= target);
}

/// Build the spliced plaintext: `plain` zero-extended to cover
/// `offset + |data|`, with `data` overlaid at `offset`.
fn build_spliced(plain: &Vec<u8>, offset: usize, data: &[u8]) -> (out: Vec<u8>)
    requires
        offset + data@.len() <= usize::MAX,
    ensures
        out@ == splice_plain(plain@, offset as int, data@),
{
    let end = offset + data.len();
    let n = if plain.len() >= end {
        plain.len()
    } else {
        end
    };
    let ghost target = splice_plain(plain@, offset as int, data@);
    assert(target.len() == n);
    let mut out: Vec<u8> = Vec::new();
    let mut i: usize = 0;
    while i < n
        invariant
            n == target.len(),
            target == splice_plain(plain@, offset as int, data@),
            end == offset + data@.len(),
            end <= n,
            plain@.len() <= n,
            i <= n,
            out@.len() == i,
            forall|j: int| 0 <= j < i ==> out@[j] == target[j],
        decreases n - i,
    {
        let b: u8 = if offset <= i && i < end {
            data[i - offset]
        } else if i < plain.len() {
            plain[i]
        } else {
            0
        };
        out.push(b);
        i = i + 1;
    }
    assert(out@ =~= target);
    out
}

} // verus!
