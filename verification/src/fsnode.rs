//! The in-memory model of a directory tree, and the pruning pass that
//! applies the entry filter and orders the children of every directory.
//!
//! The caller builds an [`FsNode`] from the real filesystem; everything the
//! library then does is a pure function of that value.  The mathematical
//! form of a node is [`Node`], whose children are a `Seq`.

use vstd::prelude::*;
use crate::filter::{decide, spec_entry_included};
use crate::rules::{RuleSet, RulesView};
use crate::strutil::{lex_lt, string_lt};

verus! {

/// One filesystem entry: a file with its raw bytes, or a directory with
/// its children.  Names are basenames, not paths.
pub enum FsNode {
    File { name: String, data: Vec<u8> },
    Dir { name: String, children: Vec<FsNode> },
}

/// Mathematical form of [`FsNode`].
pub enum Node {
    File { name: Seq<char>, data: Seq<u8> },
    Dir { name: Seq<char>, children: Seq<Node> },
}

impl Node {
    pub open spec fn name(self) -> Seq<char> {
        match self {
            Node::File { name, .. } => name,
            Node::Dir { name, .. } => name,
        }
    }

    pub open spec fn is_dir(self) -> bool {
        self is Dir
    }

    pub open spec fn children(self) -> Seq<Node> {
        match self {
            Node::File { .. } => Seq::empty(),
            Node::Dir { children, .. } => children,
        }
    }

    pub open spec fn data(self) -> Seq<u8> {
        match self {
            Node::File { data, .. } => data,
            Node::Dir { .. } => Seq::empty(),
        }
    }
}

pub open spec fn node_view(n: FsNode) -> Node
    decreases n,
{
    match n {
        FsNode::File { name, data } => Node::File { name: name@, data: data@ },
        FsNode::Dir { name, children } => Node::Dir {
            name: name@,
            children: nodes_view(children@),
        },
    }
}

pub open spec fn nodes_view(cs: Seq<FsNode>) -> Seq<Node>
    decreases cs,
{
    if cs.len() == 0 {
        Seq::empty()
    } else {
        seq![node_view(cs[0])] + nodes_view(cs.drop_first())
    }
}

impl View for FsNode {
    type V = Node;

    open spec fn view(&self) -> Node {
        node_view(*self)
    }
}

pub proof fn lemma_nodes_view(cs: Seq<FsNode>)
    ensures
        nodes_view(cs).len() == cs.len(),
        forall|i: int| 0 <= i < cs.len() ==> nodes_view(cs)[i] == node_view(cs[i]),
    decreases cs.len(),
{
    if cs.len() > 0 {
        lemma_nodes_view(cs.drop_first());
    }
}

impl FsNode {
    /// The entry's basename.
    pub fn name(&self) -> (r: &String)
        ensures
            r@ == self@.name(),
    {
        match self {
            FsNode::File { name, .. } => name,
            FsNode::Dir { name, .. } => name,
        }
    }

    /// Whether the entry is a directory.
    pub fn is_dir(&self) -> (r: bool)
        ensures
            r == self@.is_dir(),
    {
        match self {
            FsNode::File { .. } => false,
            FsNode::Dir { .. } => true,
        }
    }
}

/// Well-formed tree: within any directory, no two children share a name.
/// A tree read from a real filesystem always satisfies this.
pub open spec fn distinct_names(cs: Seq<Node>) -> bool {
    forall|i: int, j: int| 0 <= i < j < cs.len() ==> cs[i].name() != cs[j].name()
}

pub open spec fn wf(n: Node) -> bool
    decreases n,
{
    match n {
        Node::File { .. } => true,
        Node::Dir { children, .. } => distinct_names(children) && (forall|i: int|
            0 <= i < children.len() ==> wf(#[trigger] children[i])),
    }
}

/// Whether the entry filter keeps node `n`.
pub open spec fn spec_keep(n: Node, r: RulesView) -> bool {
    spec_entry_included(n.name(), n.is_dir(), r)
}

/// Inserts `x` into a name-sorted sequence, after any entry whose name is
/// not greater: insertion keeps equal names in arrival order.
pub open spec fn insert_sorted(s: Seq<Node>, x: Node) -> Seq<Node>
    decreases s.len(),
{
    if s.len() == 0 {
        seq![x]
    } else if lex_lt(x.name(), s[0].name()) {
        seq![x] + s
    } else {
        seq![s[0]] + insert_sorted(s.drop_first(), x)
    }
}

/// Insertion sort of nodes by name.
pub open spec fn sort_by_name(s: Seq<Node>) -> Seq<Node>
    decreases s.len(),
{
    if s.len() == 0 {
        Seq::empty()
    } else {
        insert_sorted(sort_by_name(s.drop_last()), s.last())
    }
}

/// The pruned form of a tree: in every directory, the children that the
/// filter rejects are removed -- an ignored directory is dropped whole,
/// never descended into -- and the kept ones are sorted by name.  The root
/// node itself is not filtered.
pub open spec fn prune(n: Node, r: RulesView) -> Node
    decreases n,
{
    match n {
        Node::File { .. } => n,
        Node::Dir { name, children } => Node::Dir {
            name,
            children: sort_by_name(prune_seq(children, r)),
        },
    }
}

pub open spec fn prune_seq(cs: Seq<Node>, r: RulesView) -> Seq<Node>
    decreases cs,
{
    if cs.len() == 0 {
        Seq::empty()
    } else {
        let rest = prune_seq(cs.drop_first(), r);
        if spec_keep(cs[0], r) {
            seq![prune(cs[0], r)] + rest
        } else {
            rest
        }
    }
}

pub proof fn lemma_prune_seq_push(cs: Seq<Node>, x: Node, r: RulesView)
    ensures
        prune_seq(cs.push(x), r) =~= prune_seq(cs, r) + (if spec_keep(x, r) {
            seq![prune(x, r)]
        } else {
            Seq::<Node>::empty()
        }),
    decreases cs.len(),
{
    if cs.len() == 0 {
        assert(cs.push(x)[0] == x);
        assert(cs.push(x).drop_first() =~= Seq::<Node>::empty());
        assert(prune_seq(cs.push(x).drop_first(), r) == Seq::<Node>::empty());
        assert(prune_seq(cs, r) == Seq::<Node>::empty());
    } else {
        assert(cs.push(x)[0] == cs[0]);
        assert(cs.push(x).drop_first() =~= cs.drop_first().push(x));
        lemma_prune_seq_push(cs.drop_first(), x, r);
        let tail = if spec_keep(x, r) {
            seq![prune(x, r)]
        } else {
            Seq::<Node>::empty()
        };
        assert(prune_seq(cs.drop_first().push(x), r) =~= prune_seq(cs.drop_first(), r) + tail);
        if spec_keep(cs[0], r) {
            assert(prune_seq(cs.push(x), r) == seq![prune(cs[0], r)] + prune_seq(
                cs.drop_first().push(x),
                r,
            ));
            assert(seq![prune(cs[0], r)] + (prune_seq(cs.drop_first(), r) + tail) =~= (seq![
                prune(cs[0], r),
            ] + prune_seq(cs.drop_first(), r)) + tail);
        }
    }
}

fn clone_bytes(data: &Vec<u8>) -> (r: Vec<u8>)
    ensures
        r@ == data@,
{
    let mut r: Vec<u8> = Vec::new();
    let mut i: usize = 0;
    while i < data.len()
        invariant
            0 <= i <= data.len(),
            r@ =~= data@.take(i as int),
        decreases data.len() - i,
    {
        r.push(data[i]);
        i += 1;
    }
    proof {
        assert(data@.take(data.len() as int) =~= data@);
    }
    r
}

/// First position of the sorted vector whose name is strictly greater than
/// `name`; insertion there keeps the order and puts `name` after equals.
fn find_insert_pos(v: &Vec<FsNode>, name: &String) -> (j: usize)
    ensures
        0 <= j <= v.len(),
        forall|k: int| 0 <= k < j ==> !lex_lt(name@, nodes_view(v@)[k].name()),
        j < v.len() ==> lex_lt(name@, nodes_view(v@)[j as int].name()),
{
    proof {
        lemma_nodes_view(v@);
    }
    let mut j: usize = 0;
    while j < v.len()
        invariant
            0 <= j <= v.len(),
            nodes_view(v@).len() == v@.len(),
            forall|k: int| 0 <= k < v@.len() ==> nodes_view(v@)[k] == node_view(v@[k]),
            forall|k: int| 0 <= k < j ==> !lex_lt(name@, nodes_view(v@)[k].name()),
        decreases v.len() - j,
    {
        if string_lt(name, v[j].name()) {
            return j;
        }
        j += 1;
    }
    j
}

fn insert_node(v: &mut Vec<FsNode>, x: FsNode)
    ensures
        nodes_view(final(v)@) =~= insert_sorted(nodes_view(old(v)@), node_view(x)),
{
    let j = find_insert_pos(v, x.name());
    proof {
        lemma_nodes_view(v@);
    }
    let ghost s = nodes_view(v@);
    v.insert(j, x);
    proof {
        lemma_nodes_view(v@);
        lemma_insert_sorted_at(s, node_view(x), j as int);
        assert forall|k: int| 0 <= k < v@.len() implies nodes_view(v@)[k] == insert_sorted(
            s,
            node_view(x),
        )[k] by {
            assert(insert_sorted(s, node_view(x)) =~= s.take(j as int) + seq![node_view(x)]
                + s.skip(j as int));
        }
    }
}

proof fn lemma_insert_sorted_at(s: Seq<Node>, x: Node, j: int)
    requires
        0 <= j <= s.len(),
        forall|k: int| 0 <= k < j ==> !lex_lt(x.name(), s[k].name()),
        j < s.len() ==> lex_lt(x.name(), s[j].name()),
    ensures
        insert_sorted(s, x) =~= s.take(j) + seq![x] + s.skip(j),
    decreases s.len(),
{
    if s.len() == 0 {
    } else if j == 0 {
        assert(lex_lt(x.name(), s[0].name()));
    } else {
        assert(!lex_lt(x.name(), s[0].name()));
        lemma_insert_sorted_at(s.drop_first(), x, j - 1);
        assert(s.drop_first().take(j - 1) =~= s.take(j).drop_first());
        assert(s.drop_first().skip(j - 1) =~= s.skip(j));
        assert(seq![s[0]] + (s.drop_first().take(j - 1) + seq![x] + s.drop_first().skip(j - 1))
            =~= s.take(j) + seq![x] + s.skip(j));
    }
}

/// Sorts a vector of nodes by name, stably.
fn sort_nodes(v: Vec<FsNode>) -> (r: Vec<FsNode>)
    ensures
        nodes_view(r@) =~= sort_by_name(nodes_view(v@)),
{
    let ghost orig = v@;
    let mut v = v;
    let mut r: Vec<FsNode> = Vec::new();
    let ghost mut i: int = 0;
    proof {
        assert(orig.skip(0) =~= orig);
    }
    while v.len() > 0
        invariant
            0 <= i <= orig.len(),
            v@ =~= orig.skip(i),
            nodes_view(r@) =~= sort_by_name(nodes_view(orig.take(i))),
        decreases v.len(),
    {
        let x = v.remove(0);
        proof {
            assert(x == orig[i]);
            assert(v@ =~= orig.skip(i + 1));
        }
        insert_node(&mut r, x);
        proof {
            lemma_nodes_view(orig.take(i));
            lemma_nodes_view(orig.take(i + 1));
            assert(nodes_view(orig.take(i + 1)).drop_last() =~= nodes_view(orig.take(i)));
            assert(nodes_view(orig.take(i + 1)).last() == node_view(orig[i]));
            assert(sort_by_name(nodes_view(orig.take(i + 1))) == insert_sorted(
                sort_by_name(nodes_view(orig.take(i))),
                node_view(orig[i]),
            ));
        }
        proof {
            i = i + 1;
        }
    }
    proof {
        assert(orig.take(orig.len() as int) =~= orig);
    }
    r
}

/// Applies the entry filter and child ordering to a whole tree, as
/// [`prune`] describes.
pub fn prune_node(n: &FsNode, rules: &RuleSet) -> (r: FsNode)
    ensures
        r@ == prune(n@, rules@),
    decreases *n,
{
    match n {
        FsNode::File { name, data } => FsNode::File {
            name: name.clone(),
            data: clone_bytes(data),
        },
        FsNode::Dir { name, children } => {
            let mut kept: Vec<FsNode> = Vec::new();
            let mut i: usize = 0;
            proof {
                lemma_nodes_view(children@);
            }
            while i < children.len()
                invariant
                    *n is Dir,
                    *children == (*n)->Dir_children,
                    0 <= i <= children@.len(),
                    nodes_view(children@).len() == children@.len(),
                    forall|k: int| 0 <= k < children@.len() ==> nodes_view(children@)[k]
                        == node_view(children@[k]),
                    nodes_view(kept@) =~= prune_seq(
                        nodes_view(children@).take(i as int),
                        rules@,
                    ),
                decreases children@.len() - i,
            {
                let c = &children[i];
                let keep_it = decide(c.name(), c.is_dir(), rules);
                let ghost cs = nodes_view(children@);
                proof {
                    assert(cs.take(i as int).push(cs[i as int]) =~= cs.take(i + 1));
                    lemma_prune_seq_push(cs.take(i as int), cs[i as int], rules@);
                }
                if keep_it {
                    let ghost kept_before = kept@;
                    proof {
                        assert(decreases_to!(*n => (*n)->Dir_children));
                        assert(decreases_to!(*children => children@[i as int]));
                    }
                    let p = prune_node(c, rules);
                    kept.push(p);
                    proof {
                        assert(kept@ =~= kept_before.push(p));
                        lemma_nodes_view_push(kept_before, p);
                    }
                }
                i += 1;
            }
            proof {
                assert(nodes_view(children@).take(children@.len() as int) =~= nodes_view(
                    children@,
                ));
            }
            let sorted = sort_nodes(kept);
            FsNode::Dir { name: name.clone(), children: sorted }
        },
    }
}

proof fn lemma_nodes_view_push(cs: Seq<FsNode>, x: FsNode)
    ensures
        nodes_view(cs.push(x)) =~= nodes_view(cs).push(node_view(x)),
{
    lemma_nodes_view(cs);
    lemma_nodes_view(cs.push(x));
    assert(cs.push(x).len() == cs.len() + 1);
    assert(forall|k: int| 0 <= k < cs.len() ==> cs.push(x)[k] == cs[k]);
    assert(cs.push(x)[cs.len() as int] == x);
}

} // verus!
