//! The file list of one selection, numbered into a range of inodes.

use vstd::prelude::*;

verus! {

/// Inode 0 is never valid and inode 1 is the mount's own root directory.
pub const FIRST_INODE: u64 = 2;

/// Largest number of entries whose position fits the signed index of a request.
pub const MAX_INDEXED: usize = 0x7fff_ffff;

/// One entry of an announced file list.
pub struct FileDescriptor {
    pub name: String,
    /// The directory that holds the entry; absent or empty at the top level.
    pub relative_path: Option<String>,
    pub file_size: Option<u64>,
    pub directory: bool,
}

#[derive(Clone, Copy, PartialEq, Eq, Debug, Structural)]
pub enum RemoteNodeKind {
    Directory,
    /// A file, by its position in the announced list.
    File { index: i32 },
}

pub struct RemoteNode {
    pub name: String,
    /// The directory that holds the node; absent or empty at the top level.
    pub relative_path: Option<String>,
    pub kind: RemoteNodeKind,
    /// Unknown until the list or the remote has told it.
    pub size: Option<u64>,
}

/// What a node stands for.
pub struct NodeView {
    pub name: Seq<char>,
    pub directory: Seq<char>,
    pub kind: RemoteNodeKind,
    pub size: Option<u64>,
}

/// The nodes of a tree in the order of their inodes.
#[verifier::ext_equal]
pub struct TreeView {
    pub base: u64,
    pub nodes: Seq<NodeView>,
    pub roots: Seq<u64>,
}

/// The directory that a relative path names; none is the top level.
pub open spec fn path_view(path: Option<String>) -> Seq<char> {
    match path {
        Some(path) => path@,
        None => Seq::empty(),
    }
}

impl FileDescriptor {
    /// A top-level entry with no size, not a directory.
    pub fn new(name: String) -> (file: Self)
        ensures
            file.name@ == name@,
            file.relative_path is None,
            file.file_size is None,
            !file.directory,
    {
        FileDescriptor { name, relative_path: None, file_size: None, directory: false }
    }

    pub fn with_file_size(self, size: u64) -> (file: Self)
        ensures
            file == (FileDescriptor { file_size: Some(size), ..self }),
    {
        FileDescriptor { file_size: Some(size), ..self }
    }

    pub fn with_relative_path(self, path: String) -> (file: Self)
        ensures
            file == (FileDescriptor { relative_path: Some(path), ..self }),
    {
        FileDescriptor { relative_path: Some(path), ..self }
    }

    pub fn with_directory(self) -> (file: Self)
        ensures
            file == (FileDescriptor { directory: true, ..self }),
    {
        FileDescriptor { directory: true, ..self }
    }

    /// Whether the entry lies at the top of the list.
    pub open spec fn is_root(self) -> bool {
        match self.relative_path {
            Some(path) => path@.len() == 0,
            None => true,
        }
    }

    /// The directory that holds the entry; empty at the top level.
    pub open spec fn parent(self) -> Seq<char> {
        path_view(self.relative_path)
    }

    /// The node that the entry at position `k` becomes.
    pub open spec fn node_view(self, k: int) -> NodeView {
        NodeView {
            name: self.name@,
            directory: self.parent(),
            kind: if self.directory {
                RemoteNodeKind::Directory
            } else {
                RemoteNodeKind::File { index: k as i32 }
            },
            size: if self.directory {
                None
            } else {
                self.file_size
            },
        }
    }
}

impl View for RemoteNode {
    type V = NodeView;

    open spec fn view(&self) -> NodeView {
        NodeView {
            name: self.name@,
            directory: path_view(self.relative_path),
            kind: self.kind,
            size: self.size,
        }
    }
}

/// How many entries of a list of `len` are kept: no more than asked for, than a
/// request can name, or than inodes are left above `base`.
pub open spec fn kept_entries(len: nat, max_entries: usize, base: u64) -> nat
    recommends
        base + FIRST_INODE <= u64::MAX,
{
    let a = if len <= max_entries { len } else { max_entries as nat };
    let b = if a <= MAX_INDEXED { a } else { MAX_INDEXED as nat };
    let room = (u64::MAX - FIRST_INODE - base) as nat;
    if b <= room { b } else { room }
}

/// The inodes of the top-level entries among the first `n`.
pub open spec fn root_inodes(files: Seq<FileDescriptor>, base: u64, n: nat) -> Seq<u64>
    decreases n,
{
    if n == 0 {
        Seq::empty()
    } else {
        let before = root_inodes(files, base, (n - 1) as nat);
        if files[n - 1].is_root() {
            before.push((base + FIRST_INODE + n - 1) as u64)
        } else {
            before
        }
    }
}

impl TreeView {
    pub open spec fn empty() -> TreeView {
        TreeView { base: 0, nodes: Seq::empty(), roots: Seq::empty() }
    }

    /// The tree of the entries kept of `files`, with inodes above `base`.
    pub open spec fn built(files: Seq<FileDescriptor>, max_entries: usize, base: u64) -> TreeView {
        let n = kept_entries(files.len(), max_entries, base);
        TreeView {
            base,
            nodes: Seq::new(n, |k: int| files[k].node_view(k)),
            roots: root_inodes(files, base, n),
        }
    }

    /// The inodes that belong to this tree.
    pub open spec fn owns(self, inode: u64) -> bool {
        self.base + FIRST_INODE <= inode < self.base + FIRST_INODE + self.nodes.len()
    }

    /// The position of an inode that this tree owns.
    pub open spec fn position(self, inode: u64) -> int {
        inode - self.base - FIRST_INODE
    }

    pub open spec fn node(self, inode: u64) -> Option<NodeView> {
        if self.owns(inode) {
            Some(self.nodes[self.position(inode)])
        } else {
            None
        }
    }

    pub open spec fn next_base(self) -> int {
        self.base + self.nodes.len()
    }

    /// This tree with the size of one file recorded.
    pub open spec fn with_size(self, inode: u64, size: u64) -> TreeView {
        if self.is_file(inode) {
            let k = self.position(inode);
            TreeView {
                nodes: self.nodes.update(k, NodeView { size: Some(size), ..self.nodes[k] }),
                ..self
            }
        } else {
            self
        }
    }

    pub open spec fn is_file(self, inode: u64) -> bool {
        self.owns(inode) && self.nodes[self.position(inode)].kind is File
    }

    /// The names of the top-level entries, in order.
    pub open spec fn root_names(self) -> Seq<Seq<char>> {
        Seq::new(self.roots.len(), |i: int| self.nodes[self.position(self.roots[i])].name)
    }

    /// Every inode of the tree is a number, and every root is a node.
    pub open spec fn wf(self) -> bool {
        &&& self.base + FIRST_INODE + self.nodes.len() <= u64::MAX
        &&& forall|i: int| 0 <= i < self.roots.len() ==> self.owns(#[trigger] self.roots[i])
    }
}

/// The files of one selection.
pub struct RemoteTree {
    pub base: u64,
    pub nodes: Vec<RemoteNode>,
    pub roots: Vec<u64>,
}

impl View for RemoteTree {
    type V = TreeView;

    open spec fn view(&self) -> TreeView {
        TreeView {
            base: self.base,
            nodes: self.nodes@.map_values(|n: RemoteNode| n@),
            roots: self.roots@,
        }
    }
}

/// Roots of a built tree are its own nodes.
pub proof fn lemma_root_inodes_owned(files: Seq<FileDescriptor>, base: u64, n: nat)
    requires
        base + FIRST_INODE + n <= u64::MAX,
    ensures
        forall|i: int|
            #![trigger root_inodes(files, base, n)[i]]
            0 <= i < root_inodes(files, base, n).len() ==> base + FIRST_INODE <= root_inodes(
                files,
                base,
                n,
            )[i] < base + FIRST_INODE + n,
    decreases n,
{
    if n > 0 {
        lemma_root_inodes_owned(files, base, (n - 1) as nat);
        let before = root_inodes(files, base, (n - 1) as nat);
        let all = root_inodes(files, base, n);
        assert forall|i: int| #![trigger all[i]] 0 <= i < all.len() implies base + FIRST_INODE
            <= all[i] < base + FIRST_INODE + n by {
            if i < before.len() {
                assert(all[i] == before[i]);
            }
        }
    }
}

impl RemoteTree {
    pub open spec fn wf(&self) -> bool {
        self@.wf()
    }

    pub fn empty() -> (tree: Self)
        ensures
            tree@ == TreeView::empty(),
            tree.wf(),
    {
        let tree = RemoteTree { base: 0, nodes: Vec::new(), roots: Vec::new() };
        assert(tree@ =~= TreeView::empty());
        tree
    }

    /// Numbers the entries of a list upwards from `base`.
    pub fn build(files: &[FileDescriptor], max_entries: usize, base: u64) -> (tree: Self)
        requires
            base + FIRST_INODE <= u64::MAX,
        ensures
            tree@ == TreeView::built(files@, max_entries, base),
            tree.wf(),
    {
        let len: usize = files.len();
        let mut n: usize = if len <= max_entries { len } else { max_entries };
        if n > MAX_INDEXED {
            n = MAX_INDEXED;
        }
        let room: u64 = u64::MAX - FIRST_INODE - base;
        if n as u64 > room {
            n = room as usize;
        }
        assert(n == kept_entries(files@.len(), max_entries, base));
        let mut nodes: Vec<RemoteNode> = Vec::new();
        let mut roots: Vec<u64> = Vec::new();
        let mut k: usize = 0;
        while k < n
            invariant
                k <= n <= files.len(),
                n <= MAX_INDEXED,
                base + FIRST_INODE + n <= u64::MAX,
                nodes.len() == k,
                forall|j: int| 0 <= j < k ==> (#[trigger] nodes@[j])@ == files@[j].node_view(j),
                roots@ == root_inodes(files@, base, k as nat),
            decreases n - k,
        {
            let file = &files[k];
            let relative_path = match &file.relative_path {
                Some(path) => Some(path.clone()),
                None => None,
            };
            let node = if file.directory {
                RemoteNode {
                    name: file.name.clone(),
                    relative_path,
                    kind: RemoteNodeKind::Directory,
                    size: None,
                }
            } else {
                RemoteNode {
                    name: file.name.clone(),
                    relative_path,
                    kind: RemoteNodeKind::File { index: k as i32 },
                    size: file.file_size,
                }
            };
            assert(node@ == files@[k as int].node_view(k as int));
            nodes.push(node);
            let root = match &file.relative_path {
                Some(path) => path.as_str().is_empty(),
                None => true,
            };
            if root {
                roots.push(base + FIRST_INODE + k as u64);
            }
            k = k + 1;
        }
        let tree = RemoteTree { base, nodes, roots };
        proof {
            assert(tree@ =~= TreeView::built(files@, max_entries, base));
            lemma_root_inodes_owned(files@, base, n as nat);
        }
        tree
    }

    /// The first number that no inode of this tree is counted from.
    pub fn next_base(&self) -> (next: u64)
        requires
            self.wf(),
        ensures
            next == self@.next_base(),
    {
        self.base + self.nodes.len() as u64
    }

    pub fn roots(&self) -> (roots: &Vec<u64>)
        ensures
            roots@ == self@.roots,
    {
        &self.roots
    }

    pub fn node(&self, inode: u64) -> (node: Option<&RemoteNode>)
        requires
            self.wf(),
        ensures
            match node {
                Some(n) => self@.node(inode) == Some(n@),
                None => self@.node(inode) is None,
            },
    {
        if inode < self.base + FIRST_INODE {
            return None;
        }
        let k: u64 = inode - self.base - FIRST_INODE;
        if k < self.nodes.len() as u64 {
            Some(&self.nodes[k as usize])
        } else {
            None
        }
    }

    /// Records the size of a file. False where the inode is none of this tree's files.
    pub fn set_size(&mut self, inode: u64, size: u64) -> (stored: bool)
        requires
            old(self).wf(),
        ensures
            final(self).wf(),
            stored == old(self)@.is_file(inode),
            final(self)@ == old(self)@.with_size(inode, size),
    {
        if inode < self.base + FIRST_INODE {
            return false;
        }
        let k: u64 = inode - self.base - FIRST_INODE;
        if k >= self.nodes.len() as u64 {
            return false;
        }
        let k: usize = k as usize;
        match self.nodes[k].kind {
            RemoteNodeKind::Directory => false,
            RemoteNodeKind::File { .. } => {
                let ghost before = self@;
                self.nodes[k].size = Some(size);
                assert(self@ =~= before.with_size(inode, size));
                true
            },
        }
    }

    /// The names of the top-level entries.
    pub fn root_names(&self) -> (names: Vec<String>)
        requires
            self.wf(),
        ensures
            names@.map_values(|n: String| n@) == self@.root_names(),
    {
        let mut names: Vec<String> = Vec::new();
        let mut i: usize = 0;
        while i < self.roots.len()
            invariant
                self.wf(),
                i <= self.roots.len(),
                names.len() == i,
                forall|j: int| 0 <= j < i ==> (#[trigger] names@[j])@ == self@.root_names()[j],
            decreases self.roots.len() - i,
        {
            assert(self@.owns(self@.roots[i as int]));
            if let Some(node) = self.node(self.roots[i]) {
                names.push(node.name.clone());
            }
            i = i + 1;
        }
        assert(names@.map_values(|n: String| n@) =~= self@.root_names());
        names
    }
}

} // verus!
