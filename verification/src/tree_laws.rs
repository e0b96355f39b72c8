//! What a caller of the file tree can rely on, entry by entry.

use crate::tree::{
    root_inodes, FileDescriptor, RemoteNode, RemoteNodeKind, RemoteTree, TreeView,
};
use vstd::prelude::*;

verus! {

/// Whether an entry names no directory that holds it.
pub open spec fn at_top(file: FileDescriptor) -> bool {
    file.relative_path is None || (file.relative_path matches Some(path) && path@.len() == 0)
}

/// The text of a path, where there is none the empty text.
pub open spec fn path_text(path: Option<String>) -> Seq<char> {
    if path is Some {
        path->0@
    } else {
        Seq::empty()
    }
}

/// Two nodes that tell a reader the same.
pub open spec fn same_node(a: RemoteNode, b: RemoteNode) -> bool {
    &&& a.name@ == b.name@
    &&& path_text(a.relative_path) == path_text(b.relative_path)
    &&& a.kind == b.kind
    &&& a.size == b.size
}

/// Two trees with the same nodes under the same inodes, and the same roots.
pub open spec fn same_tree(a: RemoteTree, b: RemoteTree) -> bool {
    &&& a.base == b.base
    &&& a.roots@ == b.roots@
    &&& a.nodes@.len() == b.nodes@.len()
    &&& forall|k: int| #![trigger a.nodes@[k]] #![trigger b.nodes@[k]]
        0 <= k < a.nodes@.len() ==> same_node(a.nodes@[k], b.nodes@[k])
}

/// Trees that stand for the same are the same to a reader.
pub proof fn lemma_same_tree(a: RemoteTree, b: RemoteTree)
    requires
        a@ == b@,
    ensures
        same_tree(a, b),
{
    assert(a.nodes@.len() == a@.nodes.len() && b.nodes@.len() == b@.nodes.len());
    assert forall|k: int| #![trigger a.nodes@[k]] #![trigger b.nodes@[k]]
        0 <= k < a.nodes@.len() implies same_node(a.nodes@[k], b.nodes@[k]) by {
        assert(a@.nodes[k] == a.nodes@[k]@);
        assert(b@.nodes[k] == b.nodes@[k]@);
    }
}

/// The node that an entry at position `k` of a list becomes: a directory if and only if the
/// entry is one, wherever it lies, and otherwise the file at that position, with the size that
/// was announced.
pub open spec fn node_of_entry(node: RemoteNode, file: FileDescriptor, k: int) -> bool {
    &&& node.name@ == file.name@
    &&& path_text(node.relative_path) == path_text(file.relative_path)
    &&& node.kind is Directory <==> file.directory
    &&& node.kind matches RemoteNodeKind::File { index } ==> index == k
    &&& file.directory ==> node.size is None
    &&& !file.directory ==> node.size == file.file_size
}

/// Whether a tree is that of a list: its nodes are the entries in order, as many as fit, and
/// its roots are the inodes of the entries at the top, in order. The entry at `k` has the inode
/// two and `k` above the base.
pub open spec fn tree_of_list(
    tree: RemoteTree,
    files: Seq<FileDescriptor>,
    max_entries: usize,
) -> bool {
    let kept = tree.nodes@.len();
    &&& kept <= files.len()
    &&& kept <= max_entries
    &&& kept < files.len() ==> kept == max_entries || kept == 0x7fff_ffff || tree.base + 2 + kept
        == u64::MAX
    &&& forall|k: int| #![trigger tree.nodes@[k]]
        0 <= k < kept ==> {
            &&& node_of_entry(tree.nodes@[k], files[k], k)
            &&& tree.roots@.contains((tree.base + 2 + k) as u64) <==> at_top(files[k])
        }
    &&& forall|i: int| #![trigger tree.roots@[i]]
        0 <= i < tree.roots@.len() ==> tree.base + 2 <= tree.roots@[i] < tree.base + 2 + kept
    &&& forall|i: int, j: int| #![trigger tree.roots@[i], tree.roots@[j]]
        0 <= i < j < tree.roots@.len() ==> tree.roots@[i] < tree.roots@[j]
}

proof fn lemma_roots(files: Seq<FileDescriptor>, base: u64, n: nat)
    requires
        base + 2 + n <= u64::MAX,
        n <= files.len(),
    ensures
        forall|i: int| #![trigger root_inodes(files, base, n)[i]]
            0 <= i < root_inodes(files, base, n).len() ==> base + 2 <= root_inodes(
                files,
                base,
                n,
            )[i] < base + 2 + n,
        forall|i: int, j: int|
            #![trigger root_inodes(files, base, n)[i], root_inodes(files, base, n)[j]]
            0 <= i < j < root_inodes(files, base, n).len() ==> root_inodes(files, base, n)[i]
                < root_inodes(files, base, n)[j],
        forall|k: int| #![trigger files[k]]
            0 <= k < n ==> (root_inodes(files, base, n).contains((base + 2 + k) as u64) <==> at_top(
                files[k],
            )),
    decreases n,
{
    if n > 0 {
        let m = (n - 1) as nat;
        lemma_roots(files, base, m);
        let few = root_inodes(files, base, m);
        let all = root_inodes(files, base, n);
        let last = (base + 2 + m) as u64;
        assert forall|i: int| #![trigger all[i]] 0 <= i < all.len() implies base + 2 <= all[i] < base
            + 2 + n by {
            if i < few.len() {
                assert(all[i] == few[i]);
            }
        }
        assert forall|i: int, j: int| #![trigger all[i], all[j]] 0 <= i < j < all.len() implies all[i]
            < all[j] by {
            assert(all[i] == few[i]);
            if j < few.len() {
                assert(all[j] == few[j]);
            }
        }
        assert forall|k: int| #![trigger files[k]] 0 <= k < n implies (all.contains(
            (base + 2 + k) as u64,
        ) <==> at_top(files[k])) by {
            let inode = (base + 2 + k) as u64;
            if k < m {
                if few.contains(inode) {
                    let i = choose|i: int| 0 <= i < few.len() && few[i] == inode;
                    assert(all[i] == inode);
                }
                if all.contains(inode) {
                    let i = choose|i: int| 0 <= i < all.len() && all[i] == inode;
                    assert(i < few.len());
                    assert(few[i] == inode);
                }
            } else {
                if at_top(files[k]) {
                    assert(all[all.len() - 1] == last);
                }
                if all.contains(inode) {
                    let i = choose|i: int| 0 <= i < all.len() && all[i] == inode;
                    if i < few.len() {
                        assert(few[i] == inode);
                    }
                }
            }
        }
    }
}

/// A tree that stands for the one built of a list is that of the list.
pub proof fn lemma_built_is_of_list(
    tree: RemoteTree,
    files: Seq<FileDescriptor>,
    max_entries: usize,
    base: u64,
)
    requires
        tree@ == TreeView::built(files, max_entries, base),
        base + 2 <= u64::MAX,
    ensures
        tree.base == base,
        tree_of_list(tree, files, max_entries),
        files.len() <= max_entries && files.len() <= 0x7fff_ffff && base + 2 + files.len()
            <= u64::MAX ==> tree.nodes@.len() == files.len(),
{
    let kept = tree.nodes@.len();
    assert(tree@.nodes.len() == kept);
    assert(tree.roots@ == tree@.roots);
    lemma_roots(files, base, kept);
    assert forall|k: int| #![trigger tree.nodes@[k]] 0 <= k < kept implies {
        &&& node_of_entry(tree.nodes@[k], files[k], k)
        &&& tree.roots@.contains((tree.base + 2 + k) as u64) <==> at_top(files[k])
    } by {
        assert(tree@.nodes[k] == tree.nodes@[k]@);
    }
}

/// A built tree holds the list it was built from: every entry at its place and of its kind.
pub proof fn law_build_keeps_every_entry(
    files: &[FileDescriptor],
    max_entries: usize,
    base: u64,
    tree: RemoteTree,
)
    requires
        call_ensures(RemoteTree::build, (files, max_entries, base), tree),
        base + 2 <= u64::MAX,
    ensures
        tree.base == base,
        tree_of_list(tree, files@, max_entries),
        files@.len() <= max_entries && files@.len() <= 0x7fff_ffff && base + 2 + files@.len()
            <= u64::MAX ==> tree.nodes@.len() == files@.len(),
{
    lemma_built_is_of_list(tree, files@, max_entries, base);
}

/// An inode finds the node that is so far above the base, and nothing outside the tree.
pub proof fn law_node_is_found_by_its_inode(
    tree: RemoteTree,
    inode: u64,
    node: Option<&RemoteNode>,
)
    requires
        call_ensures(RemoteTree::node, (&tree, inode), node),
        tree.wf(),
    ensures
        node is Some <==> tree.base + 2 <= inode < tree.base + 2 + tree.nodes@.len(),
        node matches Some(found) ==> same_node(*found, tree.nodes@[inode - tree.base - 2]),
{
    if node is Some {
        let k = inode - tree.base - 2;
        assert(tree@.nodes[k] == tree.nodes@[k]@);
    }
}

/// Recording a size changes the size of that one file, and of nothing else. Directories and
/// inodes of other trees take none.
pub proof fn law_set_size_changes_one_file(
    tree: &mut RemoteTree,
    inode: u64,
    size: u64,
    stored: bool,
)
    requires
        call_ensures(RemoteTree::set_size, (tree, inode, size), stored),
        old(tree).wf(),
    ensures
        final(tree).base == old(tree).base,
        final(tree).roots@ == old(tree).roots@,
        final(tree).nodes@.len() == old(tree).nodes@.len(),
        stored <==> (old(tree).base + 2 <= inode < old(tree).base + 2 + old(tree).nodes@.len()
            && old(tree).nodes@[inode - old(tree).base - 2].kind is File),
        forall|k: int| #![trigger final(tree).nodes@[k]]
            0 <= k < old(tree).nodes@.len() ==> {
                let before = old(tree).nodes@[k];
                let after = final(tree).nodes@[k];
                &&& after.name@ == before.name@
                &&& path_text(after.relative_path) == path_text(before.relative_path)
                &&& after.kind == before.kind
                &&& after.size == if stored && k == inode - old(tree).base - 2 {
                    Some(size)
                } else {
                    before.size
                }
            },
{
    let a = *old(tree);
    let b = *final(tree);
    assert(a@.nodes.len() == a.nodes@.len() && b@.nodes.len() == b.nodes@.len());
    let at = inode - a.base - 2;
    if 0 <= at < a.nodes@.len() {
        assert(a@.nodes[at] == a.nodes@[at]@);
    }
    assert forall|k: int| #![trigger b.nodes@[k]] 0 <= k < a.nodes@.len() implies {
        let before = a.nodes@[k];
        let after = b.nodes@[k];
        &&& after.name@ == before.name@
        &&& path_text(after.relative_path) == path_text(before.relative_path)
        &&& after.kind == before.kind
        &&& after.size == if stored && k == at {
            Some(size)
        } else {
            before.size
        }
    } by {
        assert(a@.nodes[k] == a.nodes@[k]@);
        assert(b@.nodes[k] == b.nodes@[k]@);
    }
}

/// The names of the roots are those of the nodes that the roots are the inodes of, in order.
pub proof fn law_root_names_are_those_of_the_roots(tree: RemoteTree, names: Vec<String>, i: int)
    requires
        call_ensures(RemoteTree::root_names, (&tree,), names),
        tree.wf(),
    ensures
        names@.len() == tree.roots@.len(),
        0 <= i < names@.len() ==> names@[i]@ == tree.nodes@[tree.roots@[i] - tree.base - 2].name@,
{
    let views = names@.map_values(|n: String| n@);
    assert(views.len() == names@.len());
    if 0 <= i < names@.len() {
        assert(views[i] == names@[i]@);
        assert(tree@.owns(tree@.roots[i]));
        let k = tree.roots@[i] - tree.base - 2;
        assert(tree@.nodes[k] == tree.nodes@[k]@);
    }
}

/// Inodes are counted on from where a tree ends, and an empty tree has none.
pub proof fn law_trees_follow_each_other(
    tree: RemoteTree,
    next: u64,
    roots: &Vec<u64>,
    empty: RemoteTree,
)
    requires
        call_ensures(RemoteTree::roots, (&tree,), roots),
        call_ensures(RemoteTree::next_base, (&tree,), next),
        call_ensures(RemoteTree::empty, (), empty),
        tree.wf(),
    ensures
        next == tree.base + tree.nodes@.len(),
        roots@ == tree.roots@,
        empty.nodes@.len() == 0,
        empty.roots@.len() == 0,
        empty.base == 0,
{
    assert(tree@.nodes.len() == tree.nodes@.len());
    assert(empty@.nodes.len() == empty.nodes@.len());
    assert(empty@.roots == empty.roots@);
}

/// An entry is described by what it was given, and by nothing more.
pub proof fn law_an_entry_is_what_it_was_given(
    name: String,
    plain: FileDescriptor,
    given: FileDescriptor,
    size: u64,
    sized: FileDescriptor,
    path: String,
    placed: FileDescriptor,
    directory: FileDescriptor,
)
    requires
        call_ensures(FileDescriptor::new, (name,), plain),
        call_ensures(FileDescriptor::with_file_size, (given, size), sized),
        call_ensures(FileDescriptor::with_relative_path, (given, path), placed),
        call_ensures(FileDescriptor::with_directory, (given,), directory),
    ensures
        plain.name@ == name@,
        plain.relative_path is None && plain.file_size is None && !plain.directory,
        sized.file_size == Some(size),
        sized.name == given.name && sized.relative_path == given.relative_path,
        sized.directory == given.directory,
        placed.relative_path == Some(path),
        placed.name == given.name && placed.file_size == given.file_size,
        placed.directory == given.directory,
        directory.directory,
        directory.name == given.name && directory.relative_path == given.relative_path,
        directory.file_size == given.file_size,
{
}

} // verus!
