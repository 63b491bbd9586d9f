//! What a desktop shell asks before a run: whether a path may be chosen,
//! and what the tree under a path looks like.
//!
//! The shell reads the file system; what it shows is decided here. A
//! tree node carries a title, a key that tells its place (`0` for the
//! top, `0-2` for the third entry under it, `0-2-0` for the first entry
//! under that), an icon, and its children. Entries that could not be read
//! are left out of the tree.

use vstd::prelude::*;
use crate::path::{file_name_of, FsPath, Part};
use crate::scan::DirEntry;
use crate::text::{render_path, rendered};

verus! {

/// Which paths may be chosen.
#[derive(Debug, Clone, Copy, PartialEq, Eq)]
pub struct ValidationSettings {
    /// Whether a file may be chosen.
    pub allow_files: bool,
    /// Whether a directory may be chosen.
    pub allow_directories: bool,
    /// Whether a path may be chosen that does not exist.
    pub allow_nonexistent: bool,
}

/// Whether a path may be chosen, given what is on disk at that path: a
/// path that does not exist only where that is allowed, a file only
/// where files are allowed, a directory only where directories are.
pub open spec fn path_allowed(
    exists: bool,
    is_file: bool,
    is_dir: bool,
    settings: ValidationSettings,
) -> bool {
    &&& settings.allow_nonexistent || exists
    &&& settings.allow_files || !is_file
    &&& settings.allow_directories || !is_dir
}

/// Whether a path may be chosen. `exists`, `is_file` and `is_dir` say
/// what is on disk at the path.
pub fn validate_path(exists: bool, is_file: bool, is_dir: bool, settings: ValidationSettings) -> (r:
    bool)
    ensures
        r == path_allowed(exists, is_file, is_dir, settings),
{
    // If we don't allow nonexistent and the path doesn't exist, return false
    if !settings.allow_nonexistent && !exists {
        return false;
    }
    // If we don't allow files and we've got a file selected
    if !settings.allow_files && is_file {
        return false;
    }
    // If we don't allow directories and we've got a directory selected
    if !settings.allow_directories && is_dir {
        return false;
    }
    true
}

/// The name of the icon for a directory, or for a file.
pub open spec fn icon_of(is_dir: bool) -> Seq<char> {
    if is_dir {
        "FolderOutlined"@
    } else {
        "FileOutlined"@
    }
}

/// The name of the icon for a directory, or for a file.
pub fn determine_icon(is_dir: bool) -> (r: &'static str)
    ensures
        r@ == icon_of(is_dir),
{
    if is_dir {
        "FolderOutlined"
    } else {
        "FileOutlined"
    }
}

/// The ten digits.
pub open spec fn digits() -> Seq<char> {
    seq!['0', '1', '2', '3', '4', '5', '6', '7', '8', '9']
}

/// A number written in decimal digits.
pub open spec fn decimal(n: nat) -> Seq<char>
    decreases n,
{
    if n < 10 {
        seq![digits()[n as int]]
    } else {
        decimal(n / 10).push(digits()[(n % 10) as int])
    }
}

/// The key of the entry in place `index` under the node with key `key`.
pub open spec fn child_key_of(key: Seq<char>, index: nat) -> Seq<char> {
    key + seq!['-'] + decimal(index)
}

/// Adds `n`, written in decimal digits, to the end of `out`.
fn push_decimal(out: &mut String, n: usize)
    ensures
        final(out)@ == old(out)@ + decimal(n as nat),
    decreases n,
{
    if n >= 10 {
        push_decimal(out, n / 10);
    }
    let d = n % 10;
    proof {
        reveal_strlit("0123456789");
        assert("0123456789"@ =~= digits());
    }
    let piece = "0123456789".substring_char(d, d + 1);
    out.append(piece);
    proof {
        assert(piece@ =~= seq![digits()[d as int]]);
        if n >= 10 {
            assert(out@ =~= old(out)@ + decimal((n / 10) as nat).push(digits()[d as int]));
        } else {
            assert(out@ =~= old(out)@ + seq![digits()[d as int]]);
        }
    }
}

/// The key of the entry in place `index` under the node with key `key`.
pub fn child_key(key: &str, index: usize) -> (r: String)
    ensures
        r@ == child_key_of(key@, index as nat),
{
    let mut r = String::from_str(key);
    proof {
        reveal_strlit("-");
        assert("-"@ =~= seq!['-']);
    }
    r.append("-");
    push_decimal(&mut r, index);
    r
}

/// One node of the tree that the shell shows.
#[derive(Debug, PartialEq, Eq)]
pub struct TreeDataNode {
    /// What the node is called: the name of the file or directory.
    pub title: Vec<u8>,
    /// The place of the node in the tree.
    pub key: String,
    /// The name of the node's icon.
    pub icon: Option<String>,
    /// The nodes under this one; none for a file and for a directory
    /// without entries.
    pub children: Option<Vec<TreeDataNode>>,
}

/// The mathematical counterpart of a [`TreeDataNode`].
pub struct TreeView {
    pub title: Seq<u8>,
    pub key: Seq<char>,
    pub icon: Option<Seq<char>>,
    pub children: Option<Seq<TreeView>>,
}

/// The view of a node.
pub open spec fn node_view(node: TreeDataNode) -> TreeView
    decreases node, 0nat,
{
    TreeView {
        title: node.title@,
        key: node.key@,
        icon: match node.icon {
            Some(icon) => Some(icon@),
            None => None,
        },
        children: match node.children {
            Some(children) => Some(nodes_view(children@, children@.len() as int)),
            None => None,
        },
    }
}

/// The views of the first `count` nodes of a list.
pub open spec fn nodes_view(nodes: Seq<TreeDataNode>, count: int) -> Seq<TreeView>
    decreases nodes, count,
{
    if 0 < count <= nodes.len() {
        nodes_view(nodes, count - 1).push(node_view(nodes[count - 1]))
    } else {
        Seq::empty()
    }
}

impl View for TreeDataNode {
    type V = TreeView;

    open spec fn view(&self) -> TreeView {
        node_view(*self)
    }
}

/// The children of a node, as the tree has them: none where there are no
/// nodes.
pub open spec fn children_of(nodes: Seq<TreeView>) -> Option<Seq<TreeView>> {
    if nodes.len() == 0 {
        None
    } else {
        Some(nodes)
    }
}

/// The node of a file called `title`, in the place `key`.
pub open spec fn file_node(title: Seq<u8>, key: Seq<char>) -> TreeView {
    TreeView { title, key, icon: Some(icon_of(false)), children: None }
}

/// The node of a directory called `title`, in the place `key`, with the
/// listing `entries`.
pub open spec fn dir_node(title: Seq<u8>, key: Seq<char>, entries: Seq<DirEntry>) -> TreeView
    decreases entries, entries.len() + 1,
{
    TreeView {
        title,
        key,
        icon: Some(icon_of(true)),
        children: children_of(entry_nodes(entries, entries.len() as int, key)),
    }
}

/// How many of the first `count` entries of a listing are shown: those
/// that could be read.
pub open spec fn shown_count(entries: Seq<DirEntry>, count: int) -> nat
    decreases count,
{
    if 0 < count <= entries.len() {
        if entries[count - 1] is Failed {
            shown_count(entries, count - 1)
        } else {
            shown_count(entries, count - 1) + 1
        }
    } else {
        0
    }
}

/// The nodes of the first `count` entries of a listing under the node
/// with key `key`: one for each entry that could be read, in the order of
/// the listing, numbered from 0.
pub open spec fn entry_nodes(entries: Seq<DirEntry>, count: int, key: Seq<char>) -> Seq<TreeView>
    decreases entries, count,
{
    if 0 < count <= entries.len() {
        let before = entry_nodes(entries, count - 1, key);
        let place = child_key_of(key, shown_count(entries, count - 1));
        match entries[count - 1] {
            DirEntry::File(name) => before.push(file_node(name@, place)),
            DirEntry::Dir(name, sub) => before.push(dir_node(name@, place, sub@)),
            DirEntry::Failed(_) => before,
        }
    } else {
        Seq::empty()
    }
}

/// The title of the top node for a path: its file name, or the whole
/// path written as text where it has none.
pub open spec fn top_title(path: Seq<Part>) -> Seq<u8> {
    match file_name_of(path) {
        Some(name) => name,
        None => rendered(path),
    }
}

/// The tree for a path: the node of a directory with its listing, or the
/// node of a file.
pub open spec fn tree_of(path: Seq<Part>, is_dir: bool, entries: Seq<DirEntry>) -> TreeView {
    if is_dir {
        dir_node(top_title(path), "0"@, entries)
    } else {
        file_node(top_title(path), "0"@)
    }
}

/// The node of a file called `title`, in the place `key`.
fn build_file_node(title: &Vec<u8>, key: String) -> (r: TreeDataNode)
    ensures
        r@ == file_node(title@, key@),
{
    TreeDataNode {
        title: title.clone(),
        key,
        icon: Some(String::from_str(determine_icon(false))),
        children: None,
    }
}

/// The node of the file or directory called `title`, in the place `key`.
/// `is_dir` says whether it is a directory, and `entries` is its listing.
pub fn build_tree_node(title: &Vec<u8>, is_dir: bool, entries: &Vec<DirEntry>, key: String) -> (r:
    TreeDataNode)
    ensures
        r@ == (if is_dir {
            dir_node(title@, key@, entries@)
        } else {
            file_node(title@, key@)
        }),
    decreases entries,
{
    if !is_dir {
        return build_file_node(title, key);
    }
    let mut children: Vec<TreeDataNode> = Vec::new();
    let mut idx: usize = 0;
    let mut i: usize = 0;
    while i < entries.len()
        invariant
            i <= entries.len(),
            idx == shown_count(entries@, i as int),
            idx <= i,
            nodes_view(children@, children@.len() as int) == entry_nodes(entries@, i as int, key@),
        decreases entries.len() - i,
    {
        let ghost before = children@;
        match &entries[i] {
            DirEntry::File(name) => {
                let node = build_file_node(name, child_key(key.as_str(), idx));
                children.push(node);
                proof {
                    lemma_nodes_view_push(before, node);
                }
                idx += 1;
            },
            DirEntry::Dir(name, sub) => {
                let node = build_tree_node(name, true, sub, child_key(key.as_str(), idx));
                children.push(node);
                proof {
                    lemma_nodes_view_push(before, node);
                }
                idx += 1;
            },
            DirEntry::Failed(_) => {},
        }
        i += 1;
    }
    let r = TreeDataNode {
        title: title.clone(),
        key,
        icon: Some(String::from_str(determine_icon(true))),
        children: if children.len() == 0 {
            None
        } else {
            Some(children)
        },
    };
    proof {
        lemma_nodes_view_len(children@, children@.len() as int);
    }
    r
}

/// The views of a list of nodes are as many as the nodes.
proof fn lemma_nodes_view_len(nodes: Seq<TreeDataNode>, count: int)
    requires
        0 <= count <= nodes.len(),
    ensures
        nodes_view(nodes, count).len() == count,
    decreases count,
{
    if count > 0 {
        lemma_nodes_view_len(nodes, count - 1);
    }
}

/// The views of the first nodes of a list do not depend on what follows
/// them.
proof fn lemma_nodes_view_prefix(nodes: Seq<TreeDataNode>, longer: Seq<TreeDataNode>, count: int)
    requires
        0 <= count <= nodes.len() <= longer.len(),
        forall|i: int| 0 <= i < nodes.len() ==> nodes[i] == longer[i],
    ensures
        nodes_view(nodes, count) == nodes_view(longer, count),
    decreases count,
{
    if count > 0 {
        lemma_nodes_view_prefix(nodes, longer, count - 1);
    }
}

/// The views of a list with one more node are the views of the list with
/// the view of that node after them.
proof fn lemma_nodes_view_push(nodes: Seq<TreeDataNode>, node: TreeDataNode)
    ensures
        nodes_view(nodes.push(node), nodes.len() as int + 1) == nodes_view(nodes, nodes.len() as int).push(
            node_view(node),
        ),
{
    lemma_nodes_view_prefix(nodes, nodes.push(node), nodes.len() as int);
}

/// The tree that the shell shows for a path. `is_dir` says whether the
/// path is a directory, and `entries` is its listing.
pub fn get_file_tree(path: &FsPath, is_dir: bool, entries: &Vec<DirEntry>) -> (r: Vec<
    TreeDataNode,
>)
    ensures
        r@.len() == 1,
        r@[0]@ == tree_of(path@, is_dir, entries@),
{
    let title = match path.file_name() {
        Some(name) => name.clone(),
        None => render_path(path),
    };
    let mut r: Vec<TreeDataNode> = Vec::new();
    r.push(build_tree_node(&title, is_dir, entries, String::from_str("0")));
    r
}

} // verus!
