//! The tree renderer: one indented line per kept entry, with branch
//! connectors that show ancestry.  Subdirectories are rendered before files
//! of the same level, each group in name order.

use vstd::prelude::*;
use crate::fsnode::{node_view, nodes_view, prune, FsNode, Node};
use crate::rules::{RuleSet, RulesView};
use crate::strutil::{join_sep, join_strings};

verus! {

pub open spec fn spec_has_dir(cs: Seq<Node>) -> bool {
    exists|k: int| 0 <= k < cs.len() && cs[k].is_dir()
}

pub open spec fn spec_has_file(cs: Seq<Node>) -> bool {
    exists|k: int| 0 <= k < cs.len() && !cs[k].is_dir()
}

/// The lines of one rendering pass over the children of a directory.  The
/// directory pass (`dirs_pass`) renders only subdirectories, the file pass
/// only files.  `more_after` says whether further entries follow the whole
/// pass; an entry draws the corner connector exactly when nothing follows
/// it at its level.
pub open spec fn spec_pass_lines(
    cs: Seq<Node>,
    prefix: Seq<char>,
    dirs_pass: bool,
    more_after: bool,
) -> Seq<Seq<char>>
    decreases cs,
{
    if cs.len() == 0 {
        Seq::empty()
    } else {
        let rest = cs.drop_first();
        if cs[0].is_dir() == dirs_pass {
            let more = more_after || (if dirs_pass {
                spec_has_dir(rest)
            } else {
                spec_has_file(rest)
            });
            let line = prefix + (if more {
                "├── "@
            } else {
                "└── "@
            }) + cs[0].name();
            let child_prefix = prefix + (if more {
                "│   "@
            } else {
                "    "@
            });
            let sub = if cs[0] is Dir {
                spec_tree_children(cs[0], child_prefix)
            } else {
                Seq::empty()
            };
            seq![line] + sub + spec_pass_lines(rest, prefix, dirs_pass, more_after)
        } else {
            spec_pass_lines(rest, prefix, dirs_pass, more_after)
        }
    }
}

/// The rendered lines of the children of a (pruned) directory node:
/// subdirectories first, then files.
pub open spec fn spec_tree_children(n: Node, prefix: Seq<char>) -> Seq<Seq<char>>
    decreases n,
{
    match n {
        Node::File { .. } => Seq::empty(),
        Node::Dir { children, .. } => spec_pass_lines(
            children,
            prefix,
            true,
            spec_has_file(children),
        ) + spec_pass_lines(children, prefix, false, false),
    }
}

/// The whole tree of a root: the root's own basename on the first line,
/// unprefixed, then the pruned structure beneath it.
pub open spec fn spec_tree_lines(root: Node, r: RulesView) -> Seq<Seq<char>> {
    seq![root.name()] + spec_tree_children(prune(root, r), Seq::empty())
}

pub open spec fn spec_build_tree(root: Node, r: RulesView) -> Seq<char> {
    join_sep(spec_tree_lines(root, r), "\n"@)
}

fn has_kind_from(children: &Vec<FsNode>, j: usize, want_dir: bool) -> (r: bool)
    requires
        j <= children@.len(),
    ensures
        r == (if want_dir {
            spec_has_dir(nodes_view(children@).skip(j as int))
        } else {
            spec_has_file(nodes_view(children@).skip(j as int))
        }),
{
    proof {
        crate::fsnode::lemma_nodes_view(children@);
    }
    let ghost cs = nodes_view(children@);
    let mut k: usize = j;
    while k < children.len()
        invariant
            j <= k <= children@.len(),
            cs == nodes_view(children@),
            cs.len() == children@.len(),
            forall|t: int| 0 <= t < children@.len() ==> cs[t] == node_view(children@[t]),
            forall|t: int| j <= t < k ==> cs[t].is_dir() != want_dir,
        decreases children@.len() - k,
    {
        if children[k].is_dir() == want_dir {
            proof {
                assert(cs.skip(j as int)[k - j] == cs[k as int]);
            }
            return true;
        }
        k += 1;
    }
    proof {
        assert(forall|t: int| 0 <= t < cs.skip(j as int).len() ==> cs.skip(j as int)[t] == cs[j
            + t]);
    }
    false
}

fn render_children(n: &FsNode, prefix: &String, lines: &mut Vec<String>)
    ensures
        final(lines).deep_view() =~~= old(lines).deep_view() + spec_tree_children(n@, prefix@),
    decreases *n,
{
    match n {
        FsNode::File { .. } => {},
        FsNode::Dir { children, .. } => {
            proof {
                assert(decreases_to!(*n => (*n)->Dir_children));
            }
            let ghost cs = nodes_view(children@);
            let any_files = has_kind_from(children, 0, false);
            proof {
                assert(cs.skip(0) =~= cs);
            }
            render_pass(children, prefix, true, any_files, lines);
            render_pass(children, prefix, false, false, lines);
        },
    }
}

fn render_pass(
    children: &Vec<FsNode>,
    prefix: &String,
    dirs_pass: bool,
    more_after: bool,
    lines: &mut Vec<String>,
)
    ensures
        final(lines).deep_view() =~~= old(lines).deep_view() + spec_pass_lines(
            nodes_view(children@),
            prefix@,
            dirs_pass,
            more_after,
        ),
    decreases *children,
{
    proof {
        crate::fsnode::lemma_nodes_view(children@);
    }
    let ghost cs = nodes_view(children@);
    let ghost base = lines.deep_view();
    let mut i: usize = 0;
    proof {
        assert(cs.skip(0) =~= cs);
    }
    while i < children.len()
        invariant
            0 <= i <= children@.len(),
            cs == nodes_view(children@),
            cs.len() == children@.len(),
            forall|t: int| 0 <= t < children@.len() ==> cs[t] == node_view(children@[t]),
            base + spec_pass_lines(cs, prefix@, dirs_pass, more_after) =~~= lines.deep_view()
                + spec_pass_lines(cs.skip(i as int), prefix@, dirs_pass, more_after),
        decreases children@.len() - i,
    {
        let c = &children[i];
        proof {
            assert(cs.skip(i as int)[0] == cs[i as int]);
            assert(cs.skip(i as int).drop_first() =~= cs.skip(i + 1));
        }
        if c.is_dir() == dirs_pass {
            let more = more_after || has_kind_from(children, i + 1, dirs_pass);
            let mut line = prefix.clone();
            if more {
                line.append("├── ");
            } else {
                line.append("└── ");
            }
            line.append(c.name().as_str());
            let ghost lines_before = lines.deep_view();
            lines.push(line);
            proof {
                assert(lines.deep_view() =~~= lines_before.push(line@));
            }
            if c.is_dir() {
                let mut child_prefix = prefix.clone();
                if more {
                    child_prefix.append("│   ");
                } else {
                    child_prefix.append("    ");
                }
                proof {
                    assert(decreases_to!(*children => children@[i as int]));
                }
                render_children(c, &child_prefix, lines);
            }
        }
        i += 1;
    }
    proof {
        assert(cs.skip(cs.len() as int).len() == 0);
    }
}

/// Renders the tree of `root` under `rules`: the root's basename, then one
/// line per kept entry, depth-first, subdirectories before files at each
/// level, each group sorted by name.  Ignored directories are pruned, never
/// descended into.
pub fn build_tree(root: &FsNode, rules: &RuleSet) -> (r: String)
    ensures
        r@ == spec_build_tree(root@, rules@),
{
    let mut lines: Vec<String> = Vec::new();
    lines.push(root.name().clone());
    let pruned = crate::fsnode::prune_node(root, rules);
    let prefix = String::new();
    render_children(&pruned, &prefix, &mut lines);
    proof {
        assert(lines.deep_view() =~~= spec_tree_lines(root@, rules@));
    }
    join_strings(&lines, "\n")
}

} // verus!
