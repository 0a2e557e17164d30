//! The tree snapshotter: recursively mirror a directory tree, copying
//! every regular file, so that each file of the source stands at the same
//! relative path in the destination with byte-identical content.
//!
//! The tree here is the modelled content of a directory; the shell walks
//! the real filesystem in the same shape and performs one reflink copy per
//! file.

use vstd::prelude::*;

verus! {

broadcast use vstd::seq::axiom_seq_index_decreases, vstd::std_specs::vec::axiom_vec_index_decreases, vstd::std_specs::vec::axiom_vec_decreases_to_view;

/// One node of a modelled directory tree.
pub enum TreeNode {
    /// A regular file with its bytes.
    Leaf {
        /// The entry name.
        name: String,
        /// The file's bytes.
        content: Vec<u8>,
    },
    /// A directory with its entries.
    Dir {
        /// The entry name.
        name: String,
        /// The entries, in directory order.
        entries: Vec<TreeNode>,
    },
}

/// The entry name of a node.
pub open spec fn node_name(t: TreeNode) -> Seq<char> {
    match t {
        TreeNode::Leaf { name, .. } => name@,
        TreeNode::Dir { name, .. } => name@,
    }
}

/// The bytes of the regular file at a relative path under `t`, when one
/// stands there.  The empty path names `t` itself; in a directory, the
/// first entry with the wanted name is followed.
pub open spec fn lookup(t: TreeNode, path: Seq<Seq<char>>) -> Option<Seq<u8>>
    decreases t, path.len(),
{
    match t {
        TreeNode::Leaf { content, .. } => if path.len() == 0 {
            Some(content@)
        } else {
            None
        },
        TreeNode::Dir { entries, .. } => if path.len() == 0 {
            None
        } else {
            lookup_in(entries@, path)
        },
    }
}

/// The bytes of the file at `path` under the first entry of `es` named
/// `path[0]`.
pub open spec fn lookup_in(es: Seq<TreeNode>, path: Seq<Seq<char>>) -> Option<Seq<u8>>
    decreases es, path.len(),
{
    if es.len() == 0 || path.len() == 0 {
        None
    } else if node_name(es[0]) == path[0] {
        lookup(es[0], path.drop_first())
    } else {
        lookup_in(es.drop_first(), path)
    }
}

/// Whether two trees carry the same names and the same file bytes,
/// entry for entry.
pub open spec fn same_tree(a: TreeNode, b: TreeNode) -> bool
    decreases a,
{
    match (a, b) {
        (TreeNode::Leaf { name: n1, content: c1 }, TreeNode::Leaf { name: n2, content: c2 }) => {
            n1@ == n2@ && c1@ == c2@
        },
        (TreeNode::Dir { name: n1, entries: e1 }, TreeNode::Dir { name: n2, entries: e2 }) => {
            &&& n1@ == n2@
            &&& e1@.len() == e2@.len()
            &&& forall|i: int| 0 <= i < e1@.len() ==> same_tree(#[trigger] e1@[i], e2@[i])
        },
        _ => false,
    }
}

/// Trees of the same shape and bytes answer every path lookup alike.
pub proof fn lemma_same_tree_lookup(a: TreeNode, b: TreeNode, path: Seq<Seq<char>>)
    requires
        same_tree(a, b),
    ensures
        lookup(a, path) == lookup(b, path),
    decreases a, path.len(),
{
    match (a, b) {
        (TreeNode::Dir { entries: e1, .. }, TreeNode::Dir { entries: e2, .. }) => {
            if path.len() > 0 {
                lemma_same_lookup_in(e1@, e2@, path);
            }
        },
        _ => {},
    }
}

/// Entry lists of the same shape and bytes answer every path lookup
/// alike.
proof fn lemma_same_lookup_in(e1: Seq<TreeNode>, e2: Seq<TreeNode>, path: Seq<Seq<char>>)
    requires
        e1.len() == e2.len(),
        forall|i: int| 0 <= i < e1.len() ==> same_tree(#[trigger] e1[i], e2[i]),
        path.len() > 0,
    ensures
        lookup_in(e1, path) == lookup_in(e2, path),
    decreases e1, path.len(),
{
    if e1.len() > 0 {
        assert(same_tree(e1[0], e2[0]));
        assert(node_name(e1[0]) == node_name(e2[0]));
        if node_name(e1[0]) == path[0] {
            lemma_same_tree_lookup(e1[0], e2[0], path.drop_first());
        } else {
            assert forall|i: int| 0 <= i < e1.drop_first().len() implies same_tree(
                #[trigger] e1.drop_first()[i],
                e2.drop_first()[i],
            ) by {
                assert(e1.drop_first()[i] == e1[i + 1]);
                assert(e2.drop_first()[i] == e2[i + 1]);
            }
            lemma_same_lookup_in(e1.drop_first(), e2.drop_first(), path);
        }
    }
}

/// The bytes of a file, copied.
fn clone_bytes(v: &Vec<u8>) -> (r: Vec<u8>)
    ensures
        r@ == v@,
{
    let mut r: Vec<u8> = Vec::new();
    let mut i: usize = 0;
    while i < v.len()
        invariant
            i <= v@.len(),
            r@ == v@.take(i as int),
        decreases v@.len() - i,
    {
        r.push(v[i]);
        proof {
            assert(r@ =~= v@.take(i as int + 1));
        }
        i += 1;
    }
    proof {
        assert(v@.take(v@.len() as int) =~= v@);
    }
    r
}

/// Mirror a tree: every directory reappears, and every regular file
/// reappears at the same relative path with byte-identical content.
pub fn snapshot(src: &TreeNode) -> (r: TreeNode)
    ensures
        same_tree(*src, r),
        forall|path: Seq<Seq<char>>| lookup(r, path) == lookup(*src, path),
    decreases *src,
{
    let r = match src {
        TreeNode::Leaf { name, content } => TreeNode::Leaf {
            name: name.clone(),
            content: clone_bytes(content),
        },
        TreeNode::Dir { name, entries } => {
            let mut mirrored: Vec<TreeNode> = Vec::new();
            let mut i: usize = 0;
            while i < entries.len()
                invariant
                    i <= entries@.len(),
                    mirrored@.len() == i,
                    forall|k: int|
                        0 <= k < i ==> same_tree(#[trigger] entries@[k], mirrored@[k]),
                    decreases_to!(*src => entries@),
                decreases entries@.len() - i,
            {
                proof {
                    assert(decreases_to!(entries@ => entries@[i as int]));
                }
                let sub = snapshot(&entries[i]);
                mirrored.push(sub);
                i += 1;
            }
            TreeNode::Dir { name: name.clone(), entries: mirrored }
        },
    };
    proof {
        assert(same_tree(*src, r));
        assert forall|path: Seq<Seq<char>>| lookup(r, path) == lookup(*src, path) by {
            lemma_same_tree_lookup(*src, r, path);
        }
    }
    r
}

} // verus!
