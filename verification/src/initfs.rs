//! A small file system held in memory, for when no disk can be mounted: a
//! tree of directories and regular files, each directory listing its
//! children in byte order of their names.

use vstd::prelude::*;
use vstd::string::StringSliceAdditionalSpecFns;
use vstd::utf8::{decode_utf8, encode_utf8};

use crate::bytes::{
    bytes_equal, bytes_less, lemma_lex_irreflexive, lemma_lex_total, lemma_lex_transitive, lex_lt,
};
use crate::vfs::{dir_items, DirEntry, DirItem, FileAttr, FileType, VfsError};

verus! {

/// An entry of a directory: a name and the inode it names.
pub struct ChildView {
    pub name: Seq<char>,
    pub inode: u64,
}

/// What a node of the tree holds.
pub struct NodeView {
    pub file_type: FileType,
    pub mode: u16,
    pub data: Seq<u8>,
    pub children: Seq<ChildView>,
}

/// The bytes by which a name is ordered: its UTF-8 encoding.
pub open spec fn name_key(name: Seq<char>) -> Seq<u8> {
    encode_utf8(name)
}

/// The entries are in strictly increasing byte order of their names (so no
/// name occurs twice).
pub open spec fn children_sorted(cs: Seq<ChildView>) -> bool {
    forall|i: int, j: int|
        0 <= i < j < cs.len() ==> lex_lt(name_key(#[trigger] cs[i].name), name_key(#[trigger] cs[j].name))
}

/// Some entry of `cs` is called `name`.
pub open spec fn has_child(cs: Seq<ChildView>, name: Seq<char>) -> bool {
    exists|j: int| 0 <= j < cs.len() && #[trigger] cs[j].name == name
}

/// The inode of the entry of `cs` called `name`.
pub open spec fn child_inode(cs: Seq<ChildView>, name: Seq<char>) -> Option<u64> {
    if has_child(cs, name) {
        Some(cs[child_index(cs, name)].inode)
    } else {
        None
    }
}

/// `cs` with `c` added where its name sorts.
pub open spec fn is_sorted_insert(cs: Seq<ChildView>, c: ChildView, out: Seq<ChildView>) -> bool {
    &&& children_sorted(out)
    &&& exists|p: int| 0 <= p <= cs.len() && out == cs.insert(p, c)
}

/// Where in `cs` the entry called `name` is.
pub open spec fn child_index(cs: Seq<ChildView>, name: Seq<char>) -> int {
    choose|j: int| 0 <= j < cs.len() && #[trigger] cs[j].name == name
}

/// The attributes of a node.
pub open spec fn node_attr(n: NodeView) -> FileAttr {
    FileAttr {
        file_type: n.file_type,
        size: n.data.len() as u64,
        blocks: 0,
        atime: 0,
        mtime: 0,
        ctime: 0,
        mode: n.mode,
        uid: 0,
        gid: 0,
        nlink: 1,
    }
}

/// `data` after `buf` is written at `off`: grown with zeros up to the end
/// of the write where it was shorter.
pub open spec fn written(data: Seq<u8>, off: int, buf: Seq<u8>) -> Seq<u8> {
    let end = off + buf.len();
    let len = if end > data.len() {
        end
    } else {
        data.len() as int
    };
    Seq::new(
        len as nat,
        |i: int|
            if off <= i < end {
                buf[i - off]
            } else if i < data.len() {
                data[i]
            } else {
                0u8
            },
    )
}

/// `data` cut to `size` bytes, or grown to it with zeros.
pub open spec fn resized(data: Seq<u8>, size: int) -> Seq<u8> {
    Seq::new(size as nat, |i: int| if i < data.len() { data[i] } else { 0u8 })
}

/// The text of the sample file: "mochiOS InitFs fallback" and a newline.
pub open spec fn sample_text() -> Seq<u8> {
    seq![109u8, 111, 99, 104, 105, 79, 83, 32, 73, 110, 105, 116, 70, 115, 32, 102, 97, 108, 108, 98, 97, 99, 107, 10]
}

/// What a write stores is what a read of the same range gives back, and the
/// bytes outside the range stay as they were.
pub proof fn law_read_after_write(data: Seq<u8>, off: int, buf: Seq<u8>)
    requires
        off >= 0,
    ensures
        written(data, off, buf).subrange(off, off + buf.len()) == buf,
        forall|i: int|
            0 <= i < data.len() && !(off <= i < off + buf.len()) ==> #[trigger] written(data, off, buf)[i]
                == data[i],
        written(data, off, buf).len() >= data.len(),
{
    assert(written(data, off, buf).subrange(off, off + buf.len()) =~= buf);
}

/// A new, empty node.
pub open spec fn empty_node(file_type: FileType, mode: u16) -> NodeView {
    NodeView { file_type, mode, data: Seq::empty(), children: Seq::empty() }
}

/// Different names have different keys.
pub proof fn lemma_key_injective(a: Seq<char>, b: Seq<char>)
    requires
        name_key(a) == name_key(b),
    ensures
        a == b,
{
    vstd::utf8::encode_utf8_decode_utf8(a);
    vstd::utf8::encode_utf8_decode_utf8(b);
}

/// Inserting an entry where its name sorts keeps the entries sorted.
proof fn lemma_sorted_insert(cs: Seq<ChildView>, p: int, c: ChildView)
    requires
        children_sorted(cs),
        0 <= p <= cs.len(),
        forall|k: int| 0 <= k < p ==> lex_lt(name_key(#[trigger] cs[k].name), name_key(c.name)),
        p < cs.len() ==> !lex_lt(name_key(cs[p].name), name_key(c.name)),
        !has_child(cs, c.name),
    ensures
        children_sorted(cs.insert(p, c)),
{
    let out = cs.insert(p, c);
    if p < cs.len() {
        if name_key(cs[p].name) == name_key(c.name) {
            lemma_key_injective(cs[p].name, c.name);
            assert(cs[p].name == c.name);
        }
        lemma_lex_total(name_key(cs[p].name), name_key(c.name));
    }
    assert forall|k: int| p <= k < cs.len() implies lex_lt(name_key(c.name), name_key(#[trigger] cs[k].name)) by {
        if k > p {
            lemma_lex_transitive(name_key(c.name), name_key(cs[p].name), name_key(cs[k].name));
        }
    }
    assert forall|i: int, j: int| 0 <= i < j < out.len() implies lex_lt(
        name_key(#[trigger] out[i].name),
        name_key(#[trigger] out[j].name),
    ) by {
        if j < p {
            assert(out[i] == cs[i] && out[j] == cs[j]);
        } else if j == p {
            assert(out[i] == cs[i]);
        } else if i < p {
            assert(out[i] == cs[i] && out[j] == cs[j - 1]);
            if j - 1 > i {
                if p < cs.len() {
                    lemma_lex_transitive(name_key(cs[i].name), name_key(c.name), name_key(cs[j - 1].name));
                }
            }
        } else if i == p {
            assert(out[j] == cs[j - 1]);
        } else {
            assert(out[i] == cs[i - 1] && out[j] == cs[j - 1]);
        }
    }
}

/// Removing an entry keeps the entries sorted.
proof fn lemma_sorted_remove(cs: Seq<ChildView>, p: int)
    requires
        children_sorted(cs),
        0 <= p < cs.len(),
    ensures
        children_sorted(cs.remove(p)),
{
    let out = cs.remove(p);
    assert forall|i: int, j: int| 0 <= i < j < out.len() implies lex_lt(
        name_key(#[trigger] out[i].name),
        name_key(#[trigger] out[j].name),
    ) by {
        let i2 = if i < p { i } else { i + 1 };
        let j2 = if j < p { j } else { j + 1 };
        assert(out[i] == cs[i2] && out[j] == cs[j2]);
    }
}

/// In sorted entries, the entry called `name` sits at the index that
/// `child_index` names.
proof fn lemma_child_index(cs: Seq<ChildView>, j: int)
    requires
        children_sorted(cs),
        0 <= j < cs.len(),
    ensures
        has_child(cs, cs[j].name),
        child_index(cs, cs[j].name) == j,
{
    let name = cs[j].name;
    assert(has_child(cs, name));
    let w = child_index(cs, name);
    if w != j {
        if w < j {
            assert(lex_lt(name_key(cs[w].name), name_key(cs[j].name)));
        } else {
            assert(lex_lt(name_key(cs[j].name), name_key(cs[w].name)));
        }
        lemma_lex_irreflexive(name_key(name));
    }
}

struct Child {
    name: String,
    inode: u64,
}

impl View for Child {
    type V = ChildView;

    closed spec fn view(&self) -> ChildView {
        ChildView { name: self.name@, inode: self.inode }
    }
}

struct Node {
    inode: u64,
    file_type: FileType,
    mode: u16,
    data: Vec<u8>,
    children: Vec<Child>,
}

impl View for Node {
    type V = NodeView;

    closed spec fn view(&self) -> NodeView {
        NodeView {
            file_type: self.file_type,
            mode: self.mode,
            data: self.data@,
            children: self.children@.map_values(|c: Child| c@),
        }
    }
}

/// The file system: its nodes, by inode number, and the next inode number
/// to hand out.
pub struct InitFs {
    nodes: Vec<Node>,
    next_inode: u64,
}

impl InitFs {
    /// The node with inode number `ino`, if there is one.
    pub closed spec fn node(&self, ino: u64) -> Option<NodeView> {
        if exists|i: int| 0 <= i < self.nodes@.len() && #[trigger] self.nodes@[i].inode == ino {
            Some(
                self.nodes@[choose|i: int|
                    0 <= i < self.nodes@.len() && #[trigger] self.nodes@[i].inode == ino]@,
            )
        } else {
            None
        }
    }

    /// The inode number that the next new file or directory gets.
    pub closed spec fn next_inode(&self) -> u64 {
        self.next_inode
    }

    /// Nodes are kept in increasing inode order, below the next number to
    /// hand out, and every directory lists its entries in name order.
    pub closed spec fn wf(&self) -> bool {
        &&& self.next_inode >= 2
        &&& forall|i: int, j: int|
            0 <= i < j < self.nodes@.len() ==> #[trigger] self.nodes@[i].inode
                < #[trigger] self.nodes@[j].inode
        &&& forall|i: int| 0 <= i < self.nodes@.len() ==> #[trigger] self.nodes@[i].inode < self.next_inode
        &&& forall|i: int| 0 <= i < self.nodes@.len() ==> children_sorted(#[trigger] self.nodes@[i]@.children)
    }

    proof fn lemma_node_at(&self, i: int)
        requires
            self.wf(),
            0 <= i < self.nodes@.len(),
        ensures
            self.node(self.nodes@[i].inode) == Some(self.nodes@[i]@),
    {
        let ino = self.nodes@[i].inode;
        let j = choose|j: int| 0 <= j < self.nodes@.len() && #[trigger] self.nodes@[j].inode == ino;
        assert(self.nodes@[i].inode == ino);
        if j < i {
            assert(self.nodes@[j].inode < self.nodes@[i].inode);
        } else if i < j {
            assert(self.nodes@[i].inode < self.nodes@[j].inode);
        }
    }

    /// Where the node `ino` is kept.
    fn find(&self, ino: u64) -> (r: Option<usize>)
        requires
            self.wf(),
        ensures
            match r {
                Some(i) => i < self.nodes@.len() && self.nodes@[i as int].inode == ino
                    && self.node(ino) == Some(self.nodes@[i as int]@),
                None => self.node(ino) is None,
            },
    {
        let mut i: usize = 0;
        while i < self.nodes.len()
            invariant
                self.wf(),
                i <= self.nodes@.len(),
                forall|k: int| 0 <= k < i ==> #[trigger] self.nodes@[k].inode != ino,
            decreases self.nodes@.len() - i,
        {
            if self.nodes[i].inode == ino {
                proof {
                    self.lemma_node_at(i as int);
                }
                return Some(i);
            }
            i = i + 1;
        }
        None
    }
    /// `new` is `old` with the node at `i` replaced by one with the same
    /// inode number.
    proof fn lemma_replaced(new: &Self, old: &Self, i: int)
        requires
            old.wf(),
            0 <= i < old.nodes@.len(),
            new.nodes@ == old.nodes@.update(i, new.nodes@[i]),
            new.nodes@[i].inode == old.nodes@[i].inode,
            children_sorted(new.nodes@[i]@.children),
            new.next_inode == old.next_inode,
        ensures
            new.wf(),
            forall|k: u64| #[trigger]
                new.node(k) == if k == old.nodes@[i].inode {
                    Some(new.nodes@[i]@)
                } else {
                    old.node(k)
                },
    {
        let ino = old.nodes@[i].inode;
        assert forall|j: int| 0 <= j < new.nodes@.len() implies children_sorted(
            #[trigger] new.nodes@[j]@.children,
        ) by {
            if j != i {
                assert(new.nodes@[j] == old.nodes@[j]);
            }
        }
        assert forall|a: int, b: int| 0 <= a < b < new.nodes@.len() implies #[trigger] new.nodes@[a].inode
            < #[trigger] new.nodes@[b].inode by {
            assert(old.nodes@[a].inode < old.nodes@[b].inode);
        }
        assert forall|a: int| 0 <= a < new.nodes@.len() implies #[trigger] new.nodes@[a].inode
            < new.next_inode by {
            assert(old.nodes@[a].inode < old.next_inode);
        }
        assert forall|k: u64| #[trigger]
            new.node(k) == if k == ino {
                Some(new.nodes@[i]@)
            } else {
                old.node(k)
            } by {
            if k == ino {
                new.lemma_node_at(i);
            } else {
                if exists|j: int| 0 <= j < new.nodes@.len() && #[trigger] new.nodes@[j].inode == k {
                    let j = choose|j: int| 0 <= j < new.nodes@.len() && #[trigger] new.nodes@[j].inode == k;
                    new.lemma_node_at(j);
                    old.lemma_node_at(j);
                } else {
                    assert forall|j: int| 0 <= j < old.nodes@.len() implies #[trigger] old.nodes@[j].inode
                        != k by {
                        assert(new.nodes@[j].inode != k);
                    }
                }
            }
        }
    }

    /// `new` is `old` without the node at `i`.
    proof fn lemma_removed(new: &Self, old: &Self, i: int)
        requires
            old.wf(),
            0 <= i < old.nodes@.len(),
            new.nodes@ == old.nodes@.remove(i),
            new.next_inode == old.next_inode,
        ensures
            new.wf(),
            forall|k: u64| #[trigger]
                new.node(k) == if k == old.nodes@[i].inode {
                    None
                } else {
                    old.node(k)
                },
    {
        let ino = old.nodes@[i].inode;
        assert forall|j: int| 0 <= j < new.nodes@.len() implies children_sorted(
            #[trigger] new.nodes@[j]@.children,
        ) by {
            let j2 = if j < i { j } else { j + 1 };
            assert(new.nodes@[j] == old.nodes@[j2]);
        }
        assert forall|a: int, b: int| 0 <= a < b < new.nodes@.len() implies #[trigger] new.nodes@[a].inode
            < #[trigger] new.nodes@[b].inode by {
            let a2 = if a < i { a } else { a + 1 };
            let b2 = if b < i { b } else { b + 1 };
            assert(new.nodes@[a] == old.nodes@[a2] && new.nodes@[b] == old.nodes@[b2]);
            assert(old.nodes@[a2].inode < old.nodes@[b2].inode);
        }
        assert forall|a: int| 0 <= a < new.nodes@.len() implies #[trigger] new.nodes@[a].inode
            < new.next_inode by {
            let a2 = if a < i { a } else { a + 1 };
            assert(new.nodes@[a] == old.nodes@[a2]);
            assert(old.nodes@[a2].inode < old.next_inode);
        }
        assert forall|k: u64| #[trigger]
            new.node(k) == if k == ino {
                None
            } else {
                old.node(k)
            } by {
            if exists|j: int| 0 <= j < new.nodes@.len() && #[trigger] new.nodes@[j].inode == k {
                let j = choose|j: int| 0 <= j < new.nodes@.len() && #[trigger] new.nodes@[j].inode == k;
                let j2 = if j < i { j } else { j + 1 };
                assert(new.nodes@[j] == old.nodes@[j2]);
                new.lemma_node_at(j);
                old.lemma_node_at(j2);
                if k == ino {
                    if j2 < i {
                        assert(old.nodes@[j2].inode < old.nodes@[i].inode);
                    } else {
                        assert(old.nodes@[i].inode < old.nodes@[j2].inode);
                    }
                }
            } else {
                if k != ino {
                    assert forall|j: int| 0 <= j < old.nodes@.len() implies #[trigger] old.nodes@[j].inode
                        != k by {
                        if j < i {
                            assert(new.nodes@[j] == old.nodes@[j]);
                        } else if j > i {
                            assert(new.nodes@[j - 1] == old.nodes@[j]);
                        }
                    }
                }
            }
        }
    }

    /// The empty file system: only the root directory, inode 1.
    pub fn new() -> (r: Self)
        ensures
            r.wf(),
            r.next_inode() == 2,
            forall|k: u64| #[trigger]
                r.node(k) == if k == 1 {
                    Some(empty_node(FileType::Directory, 0o755))
                } else {
                    None
                },
    {
        let root = Node {
            inode: 1,
            file_type: FileType::Directory,
            mode: 0o755,
            data: Vec::new(),
            children: Vec::new(),
        };
        let mut nodes: Vec<Node> = Vec::new();
        nodes.push(root);
        let r = InitFs { nodes, next_inode: 2 };
        proof {
            assert(r.nodes@[0]@.children =~= Seq::<ChildView>::empty());
            assert forall|k: u64| #[trigger]
                r.node(k) == if k == 1 {
                    Some(empty_node(FileType::Directory, 0o755))
                } else {
                    None
                } by {
                if k == 1 {
                    r.lemma_node_at(0);
                    assert(r.nodes@[0]@ =~= empty_node(FileType::Directory, 0o755));
                }
            }
        }
        r
    }

    /// Name of the file system type.
    pub fn name(&self) -> (r: &'static str)
        ensures
            r@ == "initfs"@,
    {
        "initfs"
    }

    /// Inode number of the root directory.
    pub fn root_inode(&self) -> (r: u64)
        ensures
            r == 1,
    {
        1
    }

    /// Hands out the next inode number.
    fn alloc_inode(&mut self) -> (r: u64)
        requires
            old(self).next_inode < u64::MAX,
        ensures
            r == old(self).next_inode,
            final(self).next_inode == old(self).next_inode + 1,
            final(self).nodes@ == old(self).nodes@,
    {
        let inode = self.next_inode;
        self.next_inode = self.next_inode + 1;
        inode
    }

    /// The node `inode`, or `NotFound`.
    fn get_node(&self, inode: u64) -> (r: Result<&Node, VfsError>)
        requires
            self.wf(),
        ensures
            match r {
                Ok(n) => self.node(inode) == Some(n@) && n.inode == inode && children_sorted(
                    n@.children,
                ),
                Err(e) => e == VfsError::NotFound && self.node(inode) is None,
            },
    {
        match self.find(inode) {
            Some(i) => Ok(&self.nodes[i]),
            None => Err(VfsError::NotFound),
        }
    }

    /// Attributes of node `inode`.
    pub fn stat(&self, inode: u64) -> (r: Result<FileAttr, VfsError>)
        requires
            self.wf(),
        ensures
            match self.node(inode) {
                Some(n) => r == Ok::<FileAttr, VfsError>(node_attr(n)),
                None => r == Err::<FileAttr, VfsError>(VfsError::NotFound),
            },
    {
        let n = match self.get_node(inode) {
            Ok(n) => n,
            Err(e) => return Err(e),
        };
        Ok(
            FileAttr {
                file_type: n.file_type,
                size: n.data.len() as u64,
                blocks: 0,
                atime: 0,
                mtime: 0,
                ctime: 0,
                mode: n.mode,
                uid: 0,
                gid: 0,
                nlink: 1,
            },
        )
    }

    /// Where in `children` the entry called `name` is.
    fn find_child(children: &Vec<Child>, name: &str) -> (r: Option<usize>)
        ensures
            match r {
                Some(j) => j < children@.len() && children@[j as int]@.name == name@,
                None => forall|j: int| 0 <= j < children@.len() ==> #[trigger] children@[j]@.name != name@,
            },
    {
        let key = name.as_bytes();
        let mut j: usize = 0;
        while j < children.len()
            invariant
                j <= children@.len(),
                key@ == encode_utf8(name@),
                forall|k: int| 0 <= k < j ==> #[trigger] children@[k]@.name != name@,
            decreases children@.len() - j,
        {
            let child_key = children[j].name.as_str().as_bytes();
            if bytes_equal(child_key, key) {
                proof {
                    vstd::utf8::encode_utf8_decode_utf8(children@[j as int]@.name);
                    vstd::utf8::encode_utf8_decode_utf8(name@);
                }
                return Some(j);
            }
            j = j + 1;
        }
        None
    }

    /// What looking `name` up in `parent_inode` gives.
    pub open spec fn lookup_result(&self, parent_inode: u64, name: Seq<char>) -> Result<u64, VfsError> {
        match self.node(parent_inode) {
            None => Err(VfsError::NotFound),
            Some(p) => if p.file_type != FileType::Directory {
                Err(VfsError::NotDirectory)
            } else {
                match child_inode(p.children, name) {
                    Some(i) => Ok(i),
                    None => Err(VfsError::NotFound),
                }
            },
        }
    }

    /// What looking `names` up one after another from `ino` gives: the
    /// inode reached, or the first error.
    pub open spec fn resolve_from(&self, ino: u64, names: Seq<Seq<char>>) -> Result<u64, VfsError>
        decreases names.len(),
    {
        if names.len() == 0 {
            Ok(ino)
        } else {
            match self.lookup_result(ino, names[0]) {
                Ok(c) => self.resolve_from(c, names.drop_first()),
                Err(e) => Err(e),
            }
        }
    }

    /// The inode that `path` names, looked up name by name from the root.
    pub fn resolve_path(&self, path: &str) -> (r: Result<u64, VfsError>)
        requires
            self.wf(),
        ensures
            r == self.resolve_from(1, crate::fs_service::path_names(path@)),
    {
        let names = crate::fs_service::path_components(path);
        let ghost all = crate::capability::service::texts(names@);
        let mut inode: u64 = self.root_inode();
        let mut i: usize = 0;
        proof {
            assert(all.skip(0) =~= all);
        }
        while i < names.len()
            invariant
                self.wf(),
                i <= names@.len(),
                all == crate::capability::service::texts(names@),
                all == crate::fs_service::path_names(path@),
                all.len() == names@.len(),
                self.resolve_from(1, all) == self.resolve_from(inode, all.skip(i as int)),
            decreases names@.len() - i,
        {
            proof {
                assert(all.skip(i as int)[0] == names@[i as int]@);
                assert(all.skip(i as int).drop_first() =~= all.skip(i + 1));
            }
            let step = self.lookup(inode, names[i].as_str());
            proof {
                assert(step == self.lookup_result(inode, all.skip(i as int)[0]));
            }
            match step {
                Ok(c) => inode = c,
                Err(e) => return Err(e),
            }
            i = i + 1;
        }
        proof {
            assert(all.skip(i as int) =~= Seq::<Seq<char>>::empty());
        }
        Ok(inode)
    }

    /// The inode number that the next new file or directory gets.
    pub fn next_inode_number(&self) -> (r: u64)
        ensures
            r == self.next_inode(),
    {
        self.next_inode
    }

    /// What creating `name` in `parent` gives: the next inode number; else
    /// `NotFound`, `NotDirectory` or `AlreadyExists`.
    pub open spec fn create_outcome(&self, parent: u64, name: Seq<char>) -> Result<u64, VfsError> {
        if parent == self.next_inode() {
            Err(VfsError::NotDirectory)
        } else {
            match self.node(parent) {
                None => Err(VfsError::NotFound),
                Some(p) => if p.file_type != FileType::Directory {
                    Err(VfsError::NotDirectory)
                } else if has_child(p.children, name) {
                    Err(VfsError::AlreadyExists)
                } else {
                    Ok(self.next_inode())
                },
            }
        }
    }

    /// Every node is as it was in `self`.
    pub open spec fn same_nodes(&self, after: Self) -> bool {
        forall|k: u64| #[trigger] after.node(k) == self.node(k)
    }

    /// `after` is `self` with regular file `ino` emptied (nothing changes
    /// where `ino` is not a regular file).
    pub open spec fn emptied(&self, after: Self, ino: u64) -> bool {
        forall|k: u64| #[trigger]
            after.node(k) == if k == ino && self.node(ino) is Some && self.node(ino)->Some_0.file_type
                == FileType::RegularFile {
                Some(NodeView { data: resized(self.node(ino)->Some_0.data, 0), ..self.node(ino)->Some_0 })
            } else {
                self.node(k)
            }
    }

    /// Opens `path` as the file service does: the inode it names; where it
    /// is missing and `flags` hold `O_CREAT`, an empty regular file created
    /// in its directory; emptied where `flags` hold `O_TRUNC`. Else the
    /// status to answer.
    pub fn open_path(&mut self, path: &str, flags: u64) -> (r: Result<u64, i64>)
        requires
            old(self).wf(),
            old(self).next_inode() < u64::MAX,
        ensures
            final(self).wf(),
            match old(self).resolve_from(1, crate::fs_service::path_names(path@)) {
                Ok(i) => r == Ok::<u64, i64>(i) && final(self).next_inode() == old(self).next_inode()
                    && if flags & crate::fs_service::O_TRUNC != 0 {
                    old(self).emptied(*final(self), i)
                } else {
                    old(self).same_nodes(*final(self))
                },
                Err(e) => if e == VfsError::NotFound && flags & crate::fs_service::O_CREAT != 0 {
                    match crate::fs_service::parent_and_name(path@) {
                        None => r == Err::<u64, i64>(-22i64) && old(self).same_nodes(*final(self))
                            && final(self).next_inode() == old(self).next_inode(),
                        Some(pn) => match old(self).resolve_from(
                            1,
                            crate::fs_service::path_names(pn.0),
                        ) {
                            Err(e2) => r == Err::<u64, i64>(crate::fs_service::errno_of(e2) as i64)
                                && old(self).same_nodes(*final(self)) && final(self).next_inode()
                                == old(self).next_inode(),
                            Ok(pi) => {
                                let cr = old(self).create_outcome(pi, pn.1);
                                &&& final(self).next_inode() == old(self).next_inode() + 1
                                &&& old(self).entry_added(
                                    *final(self),
                                    pi,
                                    pn.1,
                                    0o644u16,
                                    FileType::RegularFile,
                                    cr,
                                )
                                &&& r == match cr {
                                    Ok(i) => Ok::<u64, i64>(i),
                                    Err(e3) => Err::<u64, i64>(crate::fs_service::errno_of(e3) as i64),
                                }
                            },
                        },
                    }
                } else {
                    r == Err::<u64, i64>(crate::fs_service::errno_of(e) as i64) && old(self).same_nodes(
                        *final(self),
                    ) && final(self).next_inode() == old(self).next_inode()
                },
            },
    {
        let ghost s0 = *self;
        let resolved = self.resolve_path(path);
        let inode = match crate::fs_server::open_step(resolved, flags) {
            crate::fs_server::OpenStep::Use(i) => i,
            crate::fs_server::OpenStep::Fail(status) => return Err(status),
            crate::fs_server::OpenStep::Create => {
                let split = crate::fs_service::split_parent(path);
                match split {
                    None => return crate::fs_server::created_inode(false, Err(VfsError::InvalidArgument)),
                    Some((parent, name)) => {
                        let p = match self.resolve_path(parent) {
                            Ok(p) => p,
                            Err(e) => return Err(crate::fs_service::vfs_error_to_errno(e)),
                        };
                        let created = self.create(p, name, 0o644);
                        let ghost mid = *self;
                        match crate::fs_server::created_inode(true, created) {
                            Ok(i) => {
                                if crate::fs_server::truncates(flags) {
                                    let _ = self.truncate(i, 0);
                                    proof {
                                        assert(mid.node(i) == Some(empty_node(FileType::RegularFile, 0o644u16)));
                                        assert(resized(Seq::<u8>::empty(), 0) =~= Seq::<u8>::empty());
                                        assert forall|k: u64| #[trigger] self.node(k) == mid.node(k) by {}
                                    }
                                }
                                proof {
                                    assert(s0.entry_added(*self, p, name@, 0o644u16, FileType::RegularFile, created));
                                }
                                return Ok(i);
                            },
                            Err(status) => {
                                proof {
                                    assert(s0.entry_added(*self, p, name@, 0o644u16, FileType::RegularFile, created));
                                }
                                return Err(status);
                            },
                        }
                    },
                }
            },
        };
        if crate::fs_server::truncates(flags) {
            let _ = self.truncate(inode, 0);
        }
        Ok(inode)
    }

    /// The inode of the entry `name` of directory `parent_inode`.
    pub fn lookup(&self, parent_inode: u64, name: &str) -> (r: Result<u64, VfsError>)
        requires
            self.wf(),
        ensures
            match self.node(parent_inode) {
                None => r == Err::<u64, VfsError>(VfsError::NotFound),
                Some(p) => if p.file_type != FileType::Directory {
                    r == Err::<u64, VfsError>(VfsError::NotDirectory)
                } else {
                    match child_inode(p.children, name@) {
                        Some(i) => r == Ok::<u64, VfsError>(i),
                        None => r == Err::<u64, VfsError>(VfsError::NotFound),
                    }
                },
            },
    {
        let parent = match self.get_node(parent_inode) {
            Ok(n) => n,
            Err(e) => return Err(e),
        };
        if parent.file_type != FileType::Directory {
            return Err(VfsError::NotDirectory);
        }
        match Self::find_child(&parent.children, name) {
            Some(j) => {
                proof {
                    let cs = parent@.children;
                    assert(cs[j as int] == parent.children@[j as int]@);
                    assert(has_child(cs, name@));
                    let w = choose|w: int| 0 <= w < cs.len() && #[trigger] cs[w].name == name@;
                    if w != j {
                        if w < j {
                            assert(lex_lt(name_key(cs[w].name), name_key(cs[j as int].name)));
                        } else {
                            assert(lex_lt(name_key(cs[j as int].name), name_key(cs[w].name)));
                        }
                        lemma_lex_irreflexive(name_key(name@));
                    }
                }
                Ok(parent.children[j].inode)
            },
            None => {
                proof {
                    let cs = parent@.children;
                    assert forall|k: int| 0 <= k < cs.len() implies #[trigger] cs[k].name != name@ by {
                        assert(cs[k] == parent.children@[k]@);
                    }
                }
                Err(VfsError::NotFound)
            },
        }
    }

    /// Reads from regular file `inode`, from byte `offset`, as many bytes as
    /// `buf` holds or the file has left; returns how many.
    pub fn read(&self, inode: u64, offset: u64, buf: &mut Vec<u8>) -> (r: Result<usize, VfsError>)
        requires
            self.wf(),
        ensures
            final(buf)@.len() == old(buf)@.len(),
            match self.node(inode) {
                None => r == Err::<usize, VfsError>(VfsError::NotFound) && final(buf)@ == old(buf)@,
                Some(n) => if n.file_type != FileType::RegularFile {
                    r == Err::<usize, VfsError>(VfsError::InvalidArgument) && final(buf)@ == old(
                        buf,
                    )@
                } else if offset >= n.data.len() {
                    r == Ok::<usize, VfsError>(0) && final(buf)@ == old(buf)@
                } else {
                    let k = if old(buf)@.len() < n.data.len() - offset {
                        old(buf)@.len() as int
                    } else {
                        n.data.len() - offset
                    };
                    &&& r == Ok::<usize, VfsError>(k as usize)
                    &&& final(buf)@ == n.data.subrange(offset as int, offset + k) + old(
                        buf,
                    )@.subrange(k, old(buf)@.len() as int)
                },
            },
    {
        let n = match self.get_node(inode) {
            Ok(n) => n,
            Err(e) => return Err(e),
        };
        if n.file_type != FileType::RegularFile {
            return Err(VfsError::InvalidArgument);
        }
        if offset >= n.data.len() as u64 {
            return Ok(0);
        }
        let off = offset as usize;
        let nread = if buf.len() < n.data.len() - off {
            buf.len()
        } else {
            n.data.len() - off
        };
        crate::bytes::copy_into(buf, 0, &n.data, off, nread);
        Ok(nread)
    }
    /// Writes `buf` into regular file `inode` at byte `offset`, growing the
    /// file with zeros where the write ends past it; returns the number of
    /// bytes written.
    pub fn write(&mut self, inode: u64, offset: u64, buf: &[u8]) -> (r: Result<usize, VfsError>)
        requires
            old(self).wf(),
            offset + buf@.len() <= usize::MAX,
        ensures
            final(self).wf(),
            final(self).next_inode() == old(self).next_inode(),
            match old(self).node(inode) {
                None => r == Err::<usize, VfsError>(VfsError::NotFound) && forall|k: u64| #[trigger]
                    final(self).node(k) == old(self).node(k),
                Some(n) => if n.file_type != FileType::RegularFile {
                    r == Err::<usize, VfsError>(VfsError::InvalidArgument) && forall|k: u64| #[trigger]
                        final(self).node(k) == old(self).node(k)
                } else {
                    &&& r == Ok::<usize, VfsError>(buf@.len() as usize)
                    &&& forall|k: u64| #[trigger]
                        final(self).node(k) == if k == inode {
                            Some(NodeView { data: written(n.data, offset as int, buf@), ..n })
                        } else {
                            old(self).node(k)
                        }
                },
            },
    {
        let i = match self.find(inode) {
            Some(i) => i,
            None => return Err(VfsError::NotFound),
        };
        if self.nodes[i].file_type != FileType::RegularFile {
            return Err(VfsError::InvalidArgument);
        }
        let ghost before = self.nodes@[i as int]@;
        proof {
            assert(children_sorted(self.nodes@[i as int]@.children));
        }
        let mut node = self.nodes.remove(i);
        let ghost ch = node.children@;
        let off = offset as usize;
        let end = off + buf.len();
        while node.data.len() < end
            invariant
                node.inode == inode,
                node.file_type == before.file_type,
                node.mode == before.mode,
                node.children@ == ch,
                before.data.len() <= node.data@.len() <= end || node.data@.len() == before.data.len(),
                node.data@.len() >= before.data.len(),
                forall|k: int| 0 <= k < before.data.len() ==> #[trigger] node.data@[k] == before.data[k],
                forall|k: int| before.data.len() <= k < node.data@.len() ==> #[trigger] node.data@[k] == 0u8,
            decreases end - node.data@.len(),
        {
            node.data.push(0);
        }
        let ghost grown = node.data@;
        let mut k: usize = 0;
        while k < buf.len()
            invariant
                node.inode == inode,
                node.file_type == before.file_type,
                node.mode == before.mode,
                node.children@ == ch,
                k <= buf@.len(),
                off + buf@.len() == end,
                end <= node.data@.len(),
                node.data@.len() == grown.len(),
                forall|m: int| 0 <= m < k ==> #[trigger] node.data@[off + m] == buf@[m],
                forall|m: int|
                    0 <= m < node.data@.len() && !(off <= m < off + k) ==> #[trigger] node.data@[m]
                        == grown[m],
            decreases buf@.len() - k,
        {
            node.data.set(off + k, buf[k]);
            k = k + 1;
        }
        proof {
            let w = written(before.data, offset as int, buf@);
            assert(node.data@.len() == w.len());
            assert forall|m: int| 0 <= m < w.len() implies node.data@[m] == w[m] by {
                if off <= m < end {
                    assert(node.data@[off + (m - off)] == buf@[m - off]);
                }
            }
            assert(node.data@ =~= w);
            assert(node@.children == before.children);
        }
        self.nodes.insert(i, node);
        proof {
            assert(self.nodes@ =~= old(self).nodes@.update(i as int, self.nodes@[i as int]));
            Self::lemma_replaced(self, old(self), i as int);
            assert(self.nodes@[i as int]@ =~= NodeView { data: written(before.data, offset as int, buf@), ..before });
        }
        Ok(buf.len())
    }

    /// Cuts regular file `inode` to `size` bytes, or grows it to that size
    /// with zeros.
    pub fn truncate(&mut self, inode: u64, size: u64) -> (r: Result<(), VfsError>)
        requires
            old(self).wf(),
            size <= usize::MAX,
        ensures
            final(self).wf(),
            final(self).next_inode() == old(self).next_inode(),
            match old(self).node(inode) {
                None => r == Err::<(), VfsError>(VfsError::NotFound) && forall|k: u64| #[trigger]
                    final(self).node(k) == old(self).node(k),
                Some(n) => if n.file_type != FileType::RegularFile {
                    r == Err::<(), VfsError>(VfsError::InvalidArgument) && forall|k: u64| #[trigger]
                        final(self).node(k) == old(self).node(k)
                } else {
                    &&& r == Ok::<(), VfsError>(())
                    &&& forall|k: u64| #[trigger]
                        final(self).node(k) == if k == inode {
                            Some(NodeView { data: resized(n.data, size as int), ..n })
                        } else {
                            old(self).node(k)
                        }
                },
            },
    {
        let i = match self.find(inode) {
            Some(i) => i,
            None => return Err(VfsError::NotFound),
        };
        if self.nodes[i].file_type != FileType::RegularFile {
            return Err(VfsError::InvalidArgument);
        }
        let ghost before = self.nodes@[i as int]@;
        proof {
            assert(children_sorted(self.nodes@[i as int]@.children));
        }
        let mut node = self.nodes.remove(i);
        let ghost ch = node.children@;
        let new_len = size as usize;
        if new_len <= node.data.len() {
            node.data.truncate(new_len);
        } else {
            while node.data.len() < new_len
                invariant
                    node.inode == inode,
                    node.file_type == before.file_type,
                    node.mode == before.mode,
                    node.children@ == ch,
                    node.data@.len() <= new_len,
                    node.data@.len() >= before.data.len(),
                    forall|k: int| 0 <= k < before.data.len() ==> #[trigger] node.data@[k] == before.data[k],
                    forall|k: int| before.data.len() <= k < node.data@.len() ==> #[trigger] node.data@[k] == 0u8,
                decreases new_len - node.data@.len(),
            {
                node.data.push(0);
            }
        }
        proof {
            assert(node.data@ =~= resized(before.data, size as int));
            assert(node@.children == before.children);
        }
        self.nodes.insert(i, node);
        proof {
            assert(self.nodes@ =~= old(self).nodes@.update(i as int, self.nodes@[i as int]));
            Self::lemma_replaced(self, old(self), i as int);
            assert(self.nodes@[i as int]@ =~= NodeView { data: resized(before.data, size as int), ..before });
        }
        Ok(())
    }

    /// Nothing is kept anywhere but in memory, so there is nothing to flush.
    pub fn sync(&mut self) -> (r: Result<(), VfsError>)
        ensures
            r == Ok::<(), VfsError>(()),
            *final(self) == *old(self),
    {
        Ok(())
    }
    /// The entries of directory `inode`, in name order, each with the kind
    /// of the node it names; `NotFound` if one of them names no node.
    pub fn readdir(&self, inode: u64) -> (r: Result<Vec<DirEntry>, VfsError>)
        requires
            self.wf(),
        ensures
            match self.node(inode) {
                None => r == Err::<Vec<DirEntry>, VfsError>(VfsError::NotFound),
                Some(n) => if n.file_type != FileType::Directory {
                    r == Err::<Vec<DirEntry>, VfsError>(VfsError::NotDirectory)
                } else if forall|j: int|
                    0 <= j < n.children.len() ==> #[trigger] self.node(n.children[j].inode) is Some {
                    r is Ok && dir_items(r->Ok_0@) == Seq::new(
                        n.children.len(),
                        |j: int|
                            DirItem {
                                name: n.children[j].name,
                                inode: n.children[j].inode,
                                file_type: self.node(n.children[j].inode)->Some_0.file_type,
                            },
                    )
                } else {
                    r == Err::<Vec<DirEntry>, VfsError>(VfsError::NotFound)
                },
            },
    {
        let n = match self.get_node(inode) {
            Ok(n) => n,
            Err(e) => return Err(e),
        };
        if n.file_type != FileType::Directory {
            return Err(VfsError::NotDirectory);
        }
        let ghost cs = n@.children;
        let mut out: Vec<DirEntry> = Vec::new();
        let mut j: usize = 0;
        while j < n.children.len()
            invariant
                self.wf(),
                self.node(inode) == Some(n@),
                n.file_type == FileType::Directory,
                cs == n@.children,
                j <= n.children@.len(),
                forall|m: int| 0 <= m < j ==> #[trigger] self.node(cs[m].inode) is Some,
                dir_items(out@) == Seq::new(
                    j as nat,
                    |m: int|
                        DirItem {
                            name: cs[m].name,
                            inode: cs[m].inode,
                            file_type: self.node(cs[m].inode)->Some_0.file_type,
                        },
                ),
            decreases n.children@.len() - j,
        {
            let child = &n.children[j];
            proof {
                assert(cs[j as int] == child@);
            }
            let child_node = match self.get_node(child.inode) {
                Ok(c) => c,
                Err(e) => {
                    proof {
                        assert(!(self.node(cs[j as int].inode) is Some));
                        assert(j < cs.len());
                        assert(!(forall|m: int| 0 <= m < cs.len() ==> #[trigger] self.node(cs[m].inode) is Some));
                    }
                    return Err(e);
                },
            };
            let ghost prev = out@;
            let entry = DirEntry {
                name: child.name.clone(),
                inode: child.inode,
                file_type: child_node.file_type,
            };
            out.push(entry);
            j = j + 1;
            proof {
                assert(dir_items(out@) =~= dir_items(prev).push(out@.last()@));
                assert(dir_items(out@) =~= Seq::new(
                    j as nat,
                    |m: int|
                        DirItem {
                            name: cs[m].name,
                            inode: cs[m].inode,
                            file_type: self.node(cs[m].inode)->Some_0.file_type,
                        },
                ));
            }
        }
        Ok(out)
    }

    /// The position in `children` where `name` sorts: after every entry
    /// whose name sorts before it.
    fn insert_pos(children: &Vec<Child>, name: &str) -> (p: usize)
        ensures
            p <= children@.len(),
            forall|k: int| 0 <= k < p ==> lex_lt(name_key(#[trigger] children@[k]@.name), name_key(name@)),
            p < children@.len() ==> !lex_lt(name_key(children@[p as int]@.name), name_key(name@)),
    {
        let key = name.as_bytes();
        let mut p: usize = 0;
        while p < children.len()
            invariant
                p <= children@.len(),
                key@ == name_key(name@),
                forall|k: int| 0 <= k < p ==> lex_lt(name_key(#[trigger] children@[k]@.name), name_key(name@)),
            decreases children@.len() - p,
        {
            if !bytes_less(children[p].name.as_str().as_bytes(), key) {
                return p;
            }
            p = p + 1;
        }
        p
    }

    /// Adds a new node of kind `file_type` and enters it in directory
    /// `parent_inode` as `name`. The node is made, and its number used up,
    /// before the directory is checked.
    fn add_entry(&mut self, parent_inode: u64, name: &str, mode: u16, file_type: FileType) -> (r: Result<
        u64,
        VfsError,
    >)
        requires
            old(self).wf(),
            old(self).next_inode() < u64::MAX,
        ensures
            final(self).wf(),
            final(self).next_inode() == old(self).next_inode() + 1,
            old(self).entry_added(*final(self), parent_inode, name@, mode, file_type, r),
    {
        let inode = self.alloc_inode();
        let node = Node {
            inode,
            file_type,
            mode,
            data: Vec::new(),
            children: Vec::new(),
        };
        self.nodes.push(node);
        let ghost mid = *self;
        proof {
            assert(mid.nodes@.last()@.children =~= Seq::<ChildView>::empty());
            assert forall|a: int, b: int| 0 <= a < b < mid.nodes@.len() implies #[trigger] mid.nodes@[a].inode
                < #[trigger] mid.nodes@[b].inode by {
                if b < old(self).nodes@.len() {
                    assert(old(self).nodes@[a].inode < old(self).nodes@[b].inode);
                } else {
                    assert(old(self).nodes@[a].inode < old(self).next_inode);
                }
            }
            assert forall|a: int| 0 <= a < mid.nodes@.len() implies #[trigger] mid.nodes@[a].inode
                < mid.next_inode by {
                if a < old(self).nodes@.len() {
                    assert(old(self).nodes@[a].inode < old(self).next_inode);
                }
            }
            assert forall|a: int| 0 <= a < mid.nodes@.len() implies children_sorted(
                #[trigger] mid.nodes@[a]@.children,
            ) by {
                if a < old(self).nodes@.len() {
                    assert(mid.nodes@[a] == old(self).nodes@[a]);
                }
            }
            assert(mid.wf());
            assert forall|k: u64| #[trigger]
                mid.node(k) == if k == inode {
                    Some(empty_node(file_type, mode))
                } else {
                    old(self).node(k)
                } by {
                let last = mid.nodes@.len() - 1;
                if k == inode {
                    mid.lemma_node_at(last);
                    assert(mid.nodes@[last]@ =~= empty_node(file_type, mode));
                } else if exists|j: int| 0 <= j < mid.nodes@.len() && #[trigger] mid.nodes@[j].inode == k {
                    let j = choose|j: int| 0 <= j < mid.nodes@.len() && #[trigger] mid.nodes@[j].inode == k;
                    mid.lemma_node_at(j);
                    old(self).lemma_node_at(j);
                } else {
                    assert forall|j: int| 0 <= j < old(self).nodes@.len() implies #[trigger] old(
                        self,
                    ).nodes@[j].inode != k by {
                        assert(mid.nodes@[j].inode != k);
                    }
                }
            }
        }
        let i = match self.find(parent_inode) {
            Some(i) => i,
            None => return Err(VfsError::NotFound),
        };
        if self.nodes[i].file_type != FileType::Directory {
            return Err(VfsError::NotDirectory);
        }
        if Self::find_child(&self.nodes[i].children, name).is_some() {
            proof {
                let cs = self.nodes@[i as int]@.children;
                let j = choose|j: int| 0 <= j < self.nodes@[i as int].children@.len() && self.nodes@[i as int].children@[j]@.name == name@;
                assert(cs[j] == self.nodes@[i as int].children@[j]@);
            }
            return Err(VfsError::AlreadyExists);
        }
        let ghost before = self.nodes@[i as int]@;
        proof {
            assert(children_sorted(before.children));
            assert forall|j: int| 0 <= j < before.children.len() implies #[trigger] before.children[j].name
                != name@ by {
                assert(before.children[j] == self.nodes@[i as int].children@[j]@);
            }
        }
        let mut parent = self.nodes.remove(i);
        let p = Self::insert_pos(&parent.children, name);
        let ghost cs0 = parent.children@;
        parent.children.insert(p, Child { name: name.to_owned(), inode });
        proof {
            let c = ChildView { name: name@, inode };
            assert forall|k: int| 0 <= k < p implies lex_lt(name_key(#[trigger] before.children[k].name), name_key(c.name)) by {
                assert(before.children[k] == cs0[k]@);
            }
            if p < before.children.len() {
                assert(before.children[p as int] == cs0[p as int]@);
            }
            lemma_sorted_insert(before.children, p as int, c);
            assert(parent@.children =~= before.children.insert(p as int, c));
        }
        self.nodes.insert(i, parent);
        proof {
            assert(self.nodes@ =~= mid.nodes@.update(i as int, self.nodes@[i as int]));
            Self::lemma_replaced(self, &mid, i as int);
        }
        Ok(inode)
    }

    /// What `add_entry` does: the new node always; the entry in the parent
    /// only where the parent is a directory without an entry of that name.
    pub open spec fn entry_added(
        &self,
        after: Self,
        parent_inode: u64,
        name: Seq<char>,
        mode: u16,
        file_type: FileType,
        r: Result<u64, VfsError>,
    ) -> bool {
        let ino = self.next_inode();
        let mid = |k: u64|
            if k == ino {
                Some(empty_node(file_type, mode))
            } else {
                self.node(k)
            };
        match mid(parent_inode) {
            None => r == Err::<u64, VfsError>(VfsError::NotFound) && forall|k: u64| #[trigger]
                after.node(k) == mid(k),
            Some(p) => if p.file_type != FileType::Directory {
                r == Err::<u64, VfsError>(VfsError::NotDirectory) && forall|k: u64| #[trigger]
                    after.node(k) == mid(k)
            } else if has_child(p.children, name) {
                r == Err::<u64, VfsError>(VfsError::AlreadyExists) && forall|k: u64| #[trigger]
                    after.node(k) == mid(k)
            } else {
                &&& r == Ok::<u64, VfsError>(ino)
                &&& after.node(parent_inode) is Some
                &&& after.node(parent_inode)->Some_0 == NodeView {
                    children: after.node(parent_inode)->Some_0.children,
                    ..p
                }
                &&& is_sorted_insert(
                    p.children,
                    ChildView { name, inode: ino },
                    after.node(parent_inode)->Some_0.children,
                )
                &&& forall|k: u64| k != parent_inode ==> #[trigger] after.node(k) == mid(k)
            },
        }
    }

    /// Creates an empty regular file `name` in directory `parent_inode`.
    pub fn create(&mut self, parent_inode: u64, name: &str, mode: u16) -> (r: Result<u64, VfsError>)
        requires
            old(self).wf(),
            old(self).next_inode() < u64::MAX,
        ensures
            final(self).wf(),
            final(self).next_inode() == old(self).next_inode() + 1,
            old(self).entry_added(*final(self), parent_inode, name@, mode, FileType::RegularFile, r),
    {
        self.add_entry(parent_inode, name, mode, FileType::RegularFile)
    }

    /// Creates an empty directory `name` in directory `parent_inode`.
    pub fn mkdir(&mut self, parent_inode: u64, name: &str, mode: u16) -> (r: Result<u64, VfsError>)
        requires
            old(self).wf(),
            old(self).next_inode() < u64::MAX,
        ensures
            final(self).wf(),
            final(self).next_inode() == old(self).next_inode() + 1,
            old(self).entry_added(*final(self), parent_inode, name@, mode, FileType::Directory, r),
    {
        self.add_entry(parent_inode, name, mode, FileType::Directory)
    }
    /// Removes the entry `name` from directory `parent_inode`, and the node
    /// it names.
    pub fn unlink(&mut self, parent_inode: u64, name: &str) -> (r: Result<(), VfsError>)
        requires
            old(self).wf(),
        ensures
            final(self).wf(),
            final(self).next_inode() == old(self).next_inode(),
            old(self).entry_removed(*final(self), parent_inode, name@, r),
    {
        let i = match self.find(parent_inode) {
            Some(i) => i,
            None => return Err(VfsError::NotFound),
        };
        if self.nodes[i].file_type != FileType::Directory {
            return Err(VfsError::NotDirectory);
        }
        let ghost before = self.nodes@[i as int]@;
        let j = match Self::find_child(&self.nodes[i].children, name) {
            Some(j) => j,
            None => {
                proof {
                    assert forall|k: int| 0 <= k < before.children.len() implies #[trigger] before.children[k].name
                        != name@ by {
                        assert(before.children[k] == self.nodes@[i as int].children@[k]@);
                    }
                }
                return Err(VfsError::NotFound);
            },
        };
        proof {
            assert(children_sorted(before.children));
            assert(before.children[j as int] == self.nodes@[i as int].children@[j as int]@);
            lemma_child_index(before.children, j as int);
            lemma_sorted_remove(before.children, j as int);
        }
        let mut parent = self.nodes.remove(i);
        let ghost cs0 = parent.children@;
        let child = parent.children.remove(j);
        proof {
            assert(parent@.children =~= before.children.remove(j as int));
            assert(parent@ =~= NodeView { children: before.children.remove(j as int), ..before });
        }
        self.nodes.insert(i, parent);
        proof {
            assert(self.nodes@ =~= old(self).nodes@.update(i as int, self.nodes@[i as int]));
            Self::lemma_replaced(self, old(self), i as int);
        }
        let ghost mid = *self;
        match self.find(child.inode) {
            Some(ci) => {
                let _gone = self.nodes.remove(ci);
                proof {
                    Self::lemma_removed(self, &mid, ci as int);
                }
            },
            None => {},
        }
        Ok(())
    }

    /// What `unlink` does: where the parent is a directory with an entry of
    /// that name, the entry leaves the parent and its node leaves the file
    /// system; otherwise nothing changes.
    pub open spec fn entry_removed(&self, after: Self, parent_inode: u64, name: Seq<char>, r: Result<
        (),
        VfsError,
    >) -> bool {
        match self.node(parent_inode) {
            None => r == Err::<(), VfsError>(VfsError::NotFound) && forall|k: u64| #[trigger]
                after.node(k) == self.node(k),
            Some(p) => if p.file_type != FileType::Directory {
                r == Err::<(), VfsError>(VfsError::NotDirectory) && forall|k: u64| #[trigger]
                    after.node(k) == self.node(k)
            } else if !has_child(p.children, name) {
                r == Err::<(), VfsError>(VfsError::NotFound) && forall|k: u64| #[trigger]
                    after.node(k) == self.node(k)
            } else {
                let j = child_index(p.children, name);
                let c = p.children[j].inode;
                &&& r == Ok::<(), VfsError>(())
                &&& forall|k: u64| #[trigger]
                    after.node(k) == if k == c {
                        None
                    } else if k == parent_inode {
                        Some(NodeView { children: p.children.remove(j), ..p })
                    } else {
                        self.node(k)
                    }
            },
        }
    }

    /// Removes the directory entry `name` from `parent_inode`, as `unlink`
    /// does (the directory need not be empty).
    pub fn rmdir(&mut self, parent_inode: u64, name: &str) -> (r: Result<(), VfsError>)
        requires
            old(self).wf(),
        ensures
            final(self).wf(),
            final(self).next_inode() == old(self).next_inode(),
            old(self).entry_removed(*final(self), parent_inode, name@, r),
    {
        self.unlink(parent_inode, name)
    }
    /// Creates `hello.txt` in the root directory, holding the sample text.
    pub fn create_sample_files(&mut self) -> (r: Result<(), VfsError>)
        requires
            old(self).wf(),
            old(self).next_inode() < u64::MAX,
        ensures
            final(self).wf(),
            final(self).next_inode() == old(self).next_inode() + 1,
            ({
                let ino = old(self).next_inode();
                let name = "hello.txt"@;
                let file = empty_node(FileType::RegularFile, 0o644);
                let mid = |k: u64|
                    if k == ino {
                        Some(file)
                    } else {
                        old(self).node(k)
                    };
                match old(self).node(1) {
                    None => r == Err::<(), VfsError>(VfsError::NotFound) && forall|k: u64| #[trigger]
                        final(self).node(k) == mid(k),
                    Some(p) => if p.file_type != FileType::Directory {
                        r == Err::<(), VfsError>(VfsError::NotDirectory) && forall|k: u64| #[trigger]
                            final(self).node(k) == mid(k)
                    } else if has_child(p.children, name) {
                        r == Err::<(), VfsError>(VfsError::AlreadyExists) && forall|k: u64| #[trigger]
                            final(self).node(k) == mid(k)
                    } else {
                        &&& r == Ok::<(), VfsError>(())
                        &&& final(self).node(ino) == Some(NodeView { data: sample_text(), ..file })
                        &&& final(self).node(1) is Some
                        &&& final(self).node(1)->Some_0 == NodeView {
                            children: final(self).node(1)->Some_0.children,
                            ..p
                        }
                        &&& is_sorted_insert(
                            p.children,
                            ChildView { name, inode: ino },
                            final(self).node(1)->Some_0.children,
                        )
                        &&& forall|k: u64| k != 1 && k != ino ==> #[trigger] final(self).node(k)
                            == old(self).node(k)
                    },
                }
            }),
    {
        let root = self.root_inode();
        let hello_inode = match self.create(root, "hello.txt", 0o644) {
            Ok(i) => i,
            Err(e) => return Err(e),
        };
        let ghost mid = *self;
        let msg: Vec<u8> = vec![109u8, 111, 99, 104, 105, 79, 83, 32, 73, 110, 105, 116, 70, 115, 32, 102, 97, 108, 108, 98, 97, 99, 107, 10];
        proof {
            assert(mid.node(hello_inode) == Some(empty_node(FileType::RegularFile, 0o644)));
            assert(written(Seq::empty(), 0, msg@) =~= sample_text());
        }
        match self.write(hello_inode, 0, msg.as_slice()) {
            Ok(_) => {},
            Err(e) => return Err(e),
        }
        Ok(())
    }
    /// Every directory lists its entries in strictly increasing byte order
    /// of their names, so no name occurs twice in it.
    pub proof fn law_entries_sorted(&self, ino: u64)
        requires
            self.wf(),
            self.node(ino) is Some,
        ensures
            children_sorted(self.node(ino)->Some_0.children),
    {
        let i = choose|i: int| 0 <= i < self.nodes@.len() && #[trigger] self.nodes@[i].inode == ino;
        self.lemma_node_at(i);
    }

    /// A name entered by `create` or `mkdir` is then found by `lookup`, and
    /// names the new node.
    pub proof fn law_lookup_after_create(
        &self,
        after: Self,
        parent_inode: u64,
        name: Seq<char>,
        mode: u16,
        file_type: FileType,
        ino: u64,
    )
        requires
            self.wf(),
            after.wf(),
            self.entry_added(after, parent_inode, name, mode, file_type, Ok(ino)),
        ensures
            after.node(parent_inode) is Some,
            child_inode(after.node(parent_inode)->Some_0.children, name) == Some(ino),
    {
        let cs = after.node(parent_inode)->Some_0.children;
        after.law_entries_sorted(parent_inode);
        let mid = |k: u64|
            if k == self.next_inode() {
                Some(empty_node(file_type, mode))
            } else {
                self.node(k)
            };
        let p = mid(parent_inode)->Some_0;
        let pos = choose|pos: int|
            0 <= pos <= p.children.len() && cs == p.children.insert(pos, ChildView { name, inode: ino });
        assert(cs[pos].name == name);
        lemma_child_index(cs, pos);
    }

    /// After `unlink` or `rmdir` removed `name` from a directory, `lookup`
    /// of that name there finds nothing.
    pub proof fn law_lookup_after_unlink(&self, after: Self, parent_inode: u64, name: Seq<char>)
        requires
            self.wf(),
            self.entry_removed(after, parent_inode, name, Ok(())),
            after.node(parent_inode) is Some,
        ensures
            !has_child(after.node(parent_inode)->Some_0.children, name),
    {
        let p = self.node(parent_inode)->Some_0;
        self.law_entries_sorted(parent_inode);
        let j = child_index(p.children, name);
        let out = p.children.remove(j);
        if has_child(out, name) {
            let w = choose|w: int| 0 <= w < out.len() && #[trigger] out[w].name == name;
            let w2 = if w < j { w } else { w + 1 };
            assert(out[w] == p.children[w2]);
            lemma_child_index(p.children, w2);
        }
    }
}

} // verus!
