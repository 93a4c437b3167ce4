//! The file collector: flattens the kept files of a tree into an ordered
//! list of paths relative to the root, each path a sequence of components.

use vstd::prelude::*;
use crate::fsnode::{node_view, nodes_view, prune, FsNode, Node};
use crate::rules::{contains_string, RuleSet, RulesView};

verus! {

/// The collected paths of one pruned entry: a file yields its own name as a
/// one-component path; a directory yields its children's paths, each with
/// the directory's name prepended.  Children are visited in the (sorted)
/// order in which they stand.
pub open spec fn spec_entry_paths(n: Node) -> Seq<Seq<Seq<char>>>
    decreases n,
{
    match n {
        Node::File { name, .. } => seq![seq![name]],
        Node::Dir { name, children } => spec_paths_entries(children).map_values(
            |p: Seq<Seq<char>>| seq![name] + p,
        ),
    }
}

pub open spec fn spec_paths_entries(cs: Seq<Node>) -> Seq<Seq<Seq<char>>>
    decreases cs,
{
    if cs.len() == 0 {
        Seq::empty()
    } else {
        spec_entry_paths(cs[0]) + spec_paths_entries(cs.drop_first())
    }
}

/// The collected file list of a root: the paths of the pruned tree,
/// relative to the root.  A root whose own basename is an ignored directory
/// name yields nothing, as the traversal refuses to enter it.
pub open spec fn spec_collect(root: Node, r: RulesView) -> Seq<Seq<Seq<char>>> {
    if r.ignored_directory_names.contains(root.name()) {
        Seq::empty()
    } else {
        spec_paths_entries(prune(root, r).children())
    }
}

pub proof fn lemma_paths_entries_push(cs: Seq<Node>, x: Node)
    ensures
        spec_paths_entries(cs.push(x)) =~= spec_paths_entries(cs) + spec_entry_paths(x),
    decreases cs.len(),
{
    if cs.len() == 0 {
        assert(cs.push(x)[0] == x);
        assert(cs.push(x).drop_first() =~= Seq::<Node>::empty());
        assert(spec_paths_entries(cs.push(x).drop_first()) == Seq::<Seq<Seq<char>>>::empty());
    } else {
        assert(cs.push(x)[0] == cs[0]);
        assert(cs.push(x).drop_first() =~= cs.drop_first().push(x));
        lemma_paths_entries_push(cs.drop_first(), x);
        assert(spec_entry_paths(cs[0]) + (spec_paths_entries(cs.drop_first()) + spec_entry_paths(
            x,
        )) =~= (spec_entry_paths(cs[0]) + spec_paths_entries(cs.drop_first())) + spec_entry_paths(
            x,
        ));
    }
}

fn clone_strings(v: &Vec<String>) -> (r: Vec<String>)
    ensures
        r@ =~= v@,
{
    let mut r: Vec<String> = Vec::new();
    let mut i: usize = 0;
    while i < v.len()
        invariant
            0 <= i <= v.len(),
            r@ =~= v@.take(i as int),
        decreases v.len() - i,
    {
        r.push(v[i].clone());
        i += 1;
    }
    proof {
        assert(v@.take(v.len() as int) =~= v@);
    }
    r
}

fn collect_into(n: &FsNode, prefix: &Vec<String>, out: &mut Vec<Vec<String>>)
    ensures
        final(out).deep_view() =~~= old(out).deep_view() + spec_entry_paths(n@).map_values(
            |p: Seq<Seq<char>>| prefix.deep_view() + p,
        ),
    decreases *n,
{
    match n {
        FsNode::File { name, .. } => {
            let mut path = clone_strings(prefix);
            path.push(name.clone());
            out.push(path);
            proof {
                assert(path.deep_view() =~= prefix.deep_view() + seq![name@]);
                assert(out.deep_view() =~~= old(out).deep_view() + seq![path.deep_view()]);
            }
        },
        FsNode::Dir { name, children } => {
            proof {
                assert(decreases_to!(*n => (*n)->Dir_children));
            }
            let mut p2 = clone_strings(prefix);
            p2.push(name.clone());
            proof {
                assert(p2.deep_view() =~= prefix.deep_view() + seq![name@]);
            }
            collect_children(children, &p2, out);
            proof {
                let inner = spec_paths_entries(nodes_view(children@));
                assert(inner.map_values(|p: Seq<Seq<char>>| p2.deep_view() + p) =~~= inner
                    .map_values(|p: Seq<Seq<char>>| seq![name@] + p).map_values(
                    |p: Seq<Seq<char>>| prefix.deep_view() + p,
                ));
            }
        },
    }
}

fn collect_children(children: &Vec<FsNode>, prefix: &Vec<String>, out: &mut Vec<Vec<String>>)
    ensures
        final(out).deep_view() =~~= old(out).deep_view() + spec_paths_entries(
            nodes_view(children@),
        ).map_values(|p: Seq<Seq<char>>| prefix.deep_view() + p),
    decreases *children,
{
    let ghost cs = nodes_view(children@);
    let ghost base = out.deep_view();
    proof {
        crate::fsnode::lemma_nodes_view(children@);
    }
    let mut i: usize = 0;
    while i < children.len()
        invariant
            0 <= i <= children@.len(),
            cs == nodes_view(children@),
            cs.len() == children@.len(),
            forall|k: int| 0 <= k < children@.len() ==> cs[k] == node_view(children@[k]),
            out.deep_view() =~~= base + spec_paths_entries(cs.take(i as int)).map_values(
                |p: Seq<Seq<char>>| prefix.deep_view() + p,
            ),
        decreases children@.len() - i,
    {
        proof {
            assert(decreases_to!(*children => children@[i as int]));
        }
        collect_into(&children[i], prefix, out);
        proof {
            assert(cs.take(i as int).push(cs[i as int]) =~= cs.take(i + 1));
            lemma_paths_entries_push(cs.take(i as int), cs[i as int]);
            assert((spec_paths_entries(cs.take(i as int)) + spec_entry_paths(
                cs[i as int],
            )).map_values(|p: Seq<Seq<char>>| prefix.deep_view() + p) =~~= spec_paths_entries(
                cs.take(i as int),
            ).map_values(|p: Seq<Seq<char>>| prefix.deep_view() + p) + spec_entry_paths(
                cs[i as int],
            ).map_values(|p: Seq<Seq<char>>| prefix.deep_view() + p));
        }
        i += 1;
    }
    proof {
        assert(cs.take(children@.len() as int) =~= cs);
    }
}

/// Collects the kept files of `root`, as paths relative to the root: each
/// path is the sequence of directory names from the root down, ending in
/// the file's own name.  The list is the depth-first, name-sorted order of
/// the pruned tree.
pub fn collect_files(root: &FsNode, rules: &RuleSet) -> (r: Vec<Vec<String>>)
    requires
        root@ is Dir,
    ensures
        r.deep_view() =~~= spec_collect(root@, rules@),
{
    if contains_string(&rules.ignored_directory_names, root.name()) {
        let r: Vec<Vec<String>> = Vec::new();
        return r;
    }
    let pruned = crate::fsnode::prune_node(root, rules);
    let mut out: Vec<Vec<String>> = Vec::new();
    let prefix: Vec<String> = Vec::new();
    match &pruned {
        FsNode::File { .. } => {
            proof {
                assert(false);
            }
        },
        FsNode::Dir { children, .. } => {
            collect_children(children, &prefix, &mut out);
            proof {
                let inner = spec_paths_entries(nodes_view(children@));
                assert(inner.map_values(|p: Seq<Seq<char>>| prefix.deep_view() + p) =~~= inner);
            }
        },
    }
    out
}

} // verus!
