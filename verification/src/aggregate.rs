//! The aggregator: composes, over one or more roots, the tree sections and
//! the per-file content sections into the final document.

use vstd::prelude::*;
use crate::extract::{
    extract_contents, rendered_content, spec_extract, spec_rendered_content,
};
use crate::fsnode::{node_view, nodes_view, prune, FsNode, Node};
use crate::rules::{contains_string, RuleSet, RulesView};
use crate::strutil::{join_sep, join_strings};
use crate::tree::spec_build_tree;

verus! {

/// The header above one file's content: a separator line, the path
/// relative to its root with the root's label, and a second separator.
pub open spec fn spec_header(rel: Seq<char>, label: Seq<char>) -> Seq<char> {
    "--------------------------------------------------------------------------------\n"@ + rel
        + " (in "@ + label
        + "):\n--------------------------------------------------------------------------------\n"@
}

/// The content units (header plus rendered content) of one pruned entry,
/// in depth-first order.  `relpfx` is the path prefix down from the root,
/// each directory name followed by a slash.
pub open spec fn spec_unit_entry(n: Node, relpfx: Seq<char>, label: Seq<char>, max_size: u64) -> Seq<
    Seq<char>,
>
    decreases n,
{
    match n {
        Node::File { name, data } => seq![
            spec_header(relpfx + name, label) + spec_rendered_content(
                spec_extract(data, max_size),
            ),
        ],
        Node::Dir { name, children } => spec_file_units(
            children,
            relpfx + name + "/"@,
            label,
            max_size,
        ),
    }
}

pub open spec fn spec_file_units(
    cs: Seq<Node>,
    relpfx: Seq<char>,
    label: Seq<char>,
    max_size: u64,
) -> Seq<Seq<char>>
    decreases cs,
{
    if cs.len() == 0 {
        Seq::empty()
    } else {
        spec_unit_entry(cs[0], relpfx, label, max_size) + spec_file_units(
            cs.drop_first(),
            relpfx,
            label,
            max_size,
        )
    }
}

/// The content units of one root: those of its pruned tree, under its own
/// basename as the label.  A root whose basename is an ignored directory
/// name yields none.
pub open spec fn spec_root_units(root: Node, r: RulesView) -> Seq<Seq<char>> {
    if r.ignored_directory_names.contains(root.name()) {
        Seq::empty()
    } else {
        spec_file_units(prune(root, r).children(), Seq::empty(), root.name(), r.max_file_size_bytes)
    }
}

pub open spec fn spec_all_units(roots: Seq<Node>, r: RulesView) -> Seq<Seq<char>>
    decreases roots.len(),
{
    if roots.len() == 0 {
        Seq::empty()
    } else {
        spec_root_units(roots[0], r) + spec_all_units(roots.drop_first(), r)
    }
}

/// One tree section per root, in the order given.
pub open spec fn spec_tree_sections(roots: Seq<Node>, r: RulesView) -> Seq<Seq<char>> {
    roots.map_values(|n: Node| "=== Tree for "@ + n.name() + " ===\n"@ + spec_build_tree(n, r))
}

/// The whole document: the structure block, then the contents block, each
/// under its banner; sections and units are separated by blank lines.
pub open spec fn spec_aggregate(roots: Seq<Node>, r: RulesView) -> Seq<char> {
    "\u{ff1c}Directory Structure\u{ff1e}\n\n"@ + join_sep(spec_tree_sections(roots, r), "\n\n"@)
        + "\n\n\u{ff1c}File Contents\u{ff1e}\n\n"@ + join_sep(spec_all_units(roots, r), "\n\n"@)
}

proof fn lemma_file_units_push(
    cs: Seq<Node>,
    x: Node,
    relpfx: Seq<char>,
    label: Seq<char>,
    max_size: u64,
)
    ensures
        spec_file_units(cs.push(x), relpfx, label, max_size) =~= spec_file_units(
            cs,
            relpfx,
            label,
            max_size,
        ) + spec_unit_entry(x, relpfx, label, max_size),
    decreases cs.len(),
{
    if cs.len() == 0 {
        assert(cs.push(x)[0] == x);
        assert(cs.push(x).drop_first() =~= Seq::<Node>::empty());
        assert(spec_file_units(cs.push(x).drop_first(), relpfx, label, max_size) == Seq::<
            Seq<char>,
        >::empty());
    } else {
        assert(cs.push(x)[0] == cs[0]);
        assert(cs.push(x).drop_first() =~= cs.drop_first().push(x));
        lemma_file_units_push(cs.drop_first(), x, relpfx, label, max_size);
        assert(spec_unit_entry(cs[0], relpfx, label, max_size) + (spec_file_units(
            cs.drop_first(),
            relpfx,
            label,
            max_size,
        ) + spec_unit_entry(x, relpfx, label, max_size)) =~= (spec_unit_entry(
            cs[0],
            relpfx,
            label,
            max_size,
        ) + spec_file_units(cs.drop_first(), relpfx, label, max_size)) + spec_unit_entry(
            x,
            relpfx,
            label,
            max_size,
        ));
    }
}

proof fn lemma_all_units_push(roots: Seq<Node>, x: Node, r: RulesView)
    ensures
        spec_all_units(roots.push(x), r) =~= spec_all_units(roots, r) + spec_root_units(x, r),
    decreases roots.len(),
{
    if roots.len() == 0 {
        assert(roots.push(x)[0] == x);
        assert(roots.push(x).drop_first() =~= Seq::<Node>::empty());
        assert(spec_all_units(roots.push(x).drop_first(), r) == Seq::<Seq<char>>::empty());
    } else {
        assert(roots.push(x)[0] == roots[0]);
        assert(roots.push(x).drop_first() =~= roots.drop_first().push(x));
        lemma_all_units_push(roots.drop_first(), x, r);
        assert(spec_root_units(roots[0], r) + (spec_all_units(roots.drop_first(), r)
            + spec_root_units(x, r)) =~= (spec_root_units(roots[0], r) + spec_all_units(
            roots.drop_first(),
            r,
        )) + spec_root_units(x, r));
    }
}

fn emit_unit_entry(n: &FsNode, relpfx: &String, label: &String, rules: &RuleSet, out: &mut Vec<String>)
    ensures
        final(out).deep_view() =~~= old(out).deep_view() + spec_unit_entry(
            n@,
            relpfx@,
            label@,
            rules@.max_file_size_bytes,
        ),
    decreases *n,
{
    match n {
        FsNode::File { name, data } => {
            let mut unit = String::from_str(
                "--------------------------------------------------------------------------------\n",
            );
            unit.append(relpfx.as_str());
            unit.append(name.as_str());
            unit.append(" (in ");
            unit.append(label.as_str());
            unit.append(
                "):\n--------------------------------------------------------------------------------\n",
            );
            let content = extract_contents(data, rules);
            let text = rendered_content(content);
            unit.append(text.as_str());
            proof {
                assert(unit@ =~= spec_header(relpfx@ + name@, label@) + spec_rendered_content(
                    spec_extract(data@, rules@.max_file_size_bytes),
                ));
            }
            let ghost before = out.deep_view();
            out.push(unit);
            proof {
                assert(out.deep_view() =~~= before.push(unit@));
            }
        },
        FsNode::Dir { name, children } => {
            proof {
                assert(decreases_to!(*n => (*n)->Dir_children));
            }
            let mut rp2 = relpfx.clone();
            rp2.append(name.as_str());
            rp2.append("/");
            emit_unit_children(children, &rp2, label, rules, out);
        },
    }
}

fn emit_unit_children(
    children: &Vec<FsNode>,
    relpfx: &String,
    label: &String,
    rules: &RuleSet,
    out: &mut Vec<String>,
)
    ensures
        final(out).deep_view() =~~= old(out).deep_view() + spec_file_units(
            nodes_view(children@),
            relpfx@,
            label@,
            rules@.max_file_size_bytes,
        ),
    decreases *children,
{
    let ghost cs = nodes_view(children@);
    let ghost base = out.deep_view();
    proof {
        crate::fsnode::lemma_nodes_view(children@);
    }
    let mut i: usize = 0;
    while i < children.len()
        invariant
            0 <= i <= children@.len(),
            cs == nodes_view(children@),
            cs.len() == children@.len(),
            forall|k: int| 0 <= k < children@.len() ==> cs[k] == node_view(children@[k]),
            out.deep_view() =~~= base + spec_file_units(
                cs.take(i as int),
                relpfx@,
                label@,
                rules@.max_file_size_bytes,
            ),
        decreases children@.len() - i,
    {
        proof {
            assert(decreases_to!(*children => children@[i as int]));
        }
        emit_unit_entry(&children[i], relpfx, label, rules, out);
        proof {
            assert(cs.take(i as int).push(cs[i as int]) =~= cs.take(i + 1));
            lemma_file_units_push(
                cs.take(i as int),
                cs[i as int],
                relpfx@,
                label@,
                rules@.max_file_size_bytes,
            );
        }
        i += 1;
    }
    proof {
        assert(cs.take(children@.len() as int) =~= cs);
    }
}

/// The content units of one root, appended to `out`.
fn emit_root_units(root: &FsNode, rules: &RuleSet, out: &mut Vec<String>)
    requires
        root@ is Dir,
    ensures
        final(out).deep_view() =~~= old(out).deep_view() + spec_root_units(root@, rules@),
{
    if contains_string(&rules.ignored_directory_names, root.name()) {
        return ;
    }
    let label = root.name().clone();
    let pruned = crate::fsnode::prune_node(root, rules);
    let relpfx = String::new();
    match &pruned {
        FsNode::File { .. } => {
            proof {
                assert(false);
            }
        },
        FsNode::Dir { children, .. } => {
            emit_unit_children(children, &relpfx, &label, rules, out);
        },
    }
}

/// Composes the whole document over `roots`, in the order given: one tree
/// section per root, then one content unit per kept file, as
/// [`spec_aggregate`] describes.  Callers hand in validated directory
/// roots; a run with no valid roots produces no document at all and never
/// reaches this function.
pub fn aggregate(roots: &Vec<FsNode>, rules: &RuleSet) -> (r: String)
    requires
        forall|i: int| 0 <= i < roots@.len() ==> (#[trigger] roots@[i])@ is Dir,
    ensures
        r@ == spec_aggregate(nodes_view(roots@), rules@),
{
    let ghost rs = nodes_view(roots@);
    proof {
        crate::fsnode::lemma_nodes_view(roots@);
    }
    let mut sections: Vec<String> = Vec::new();
    let mut i: usize = 0;
    while i < roots.len()
        invariant
            0 <= i <= roots@.len(),
            rs == nodes_view(roots@),
            rs.len() == roots@.len(),
            forall|k: int| 0 <= k < roots@.len() ==> rs[k] == node_view(roots@[k]),
            sections.deep_view() =~~= spec_tree_sections(rs.take(i as int), rules@),
        decreases roots@.len() - i,
    {
        let root = &roots[i];
        let mut sec = String::from_str("=== Tree for ");
        sec.append(root.name().as_str());
        sec.append(" ===\n");
        let tree = crate::tree::build_tree(root, rules);
        sec.append(tree.as_str());
        let ghost before = sections.deep_view();
        sections.push(sec);
        proof {
            assert(sections.deep_view() =~~= before.push(sec@));
            assert(spec_tree_sections(rs.take(i + 1), rules@) =~~= spec_tree_sections(
                rs.take(i as int),
                rules@,
            ).push(sec@));
        }
        i += 1;
    }
    let mut units: Vec<String> = Vec::new();
    let mut j: usize = 0;
    while j < roots.len()
        invariant
            0 <= j <= roots@.len(),
            rs == nodes_view(roots@),
            rs.len() == roots@.len(),
            forall|k: int| 0 <= k < roots@.len() ==> rs[k] == node_view(roots@[k]),
            forall|k: int| 0 <= k < roots@.len() ==> (#[trigger] roots@[k])@ is Dir,
            units.deep_view() =~~= spec_all_units(rs.take(j as int), rules@),
        decreases roots@.len() - j,
    {
        emit_root_units(&roots[j], rules, &mut units);
        proof {
            assert(rs.take(j as int).push(rs[j as int]) =~= rs.take(j + 1));
            lemma_all_units_push(rs.take(j as int), rs[j as int], rules@);
        }
        j += 1;
    }
    proof {
        assert(rs.take(rs.len() as int) =~= rs);
    }
    let trees_block = join_strings(&sections, "\n\n");
    let units_block = join_strings(&units, "\n\n");
    let mut doc = String::from_str("\u{ff1c}Directory Structure\u{ff1e}\n\n");
    doc.append(trees_block.as_str());
    doc.append("\n\n\u{ff1c}File Contents\u{ff1e}\n\n");
    doc.append(units_block.as_str());
    doc
}

} // verus!
