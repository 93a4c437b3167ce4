//! Library-wide laws: what pruning guarantees about the structure it keeps
//! (no filtered entry survives anywhere), and the ordering of the collected
//! file list.

use vstd::prelude::*;
use crate::collect::{spec_collect, spec_entry_paths, spec_paths_entries};
use crate::fsnode::{
    distinct_names, insert_sorted, prune, prune_seq, sort_by_name, spec_keep, wf, Node,
};
use crate::rules::RulesView;
use crate::strutil::{
    lemma_lex_lt_connected, lemma_lex_lt_irrefl, lemma_lex_lt_trans, lex_lt,
};

verus! {

/// Non-strict name order over a sequence of nodes.
pub open spec fn names_sorted(s: Seq<Node>) -> bool {
    forall|i: int, j: int| 0 <= i < j < s.len() ==> !lex_lt(s[j].name(), s[i].name())
}

proof fn lemma_insert_sorted_elems(s: Seq<Node>, x: Node)
    ensures
        insert_sorted(s, x).len() == s.len() + 1,
        forall|k: int| 0 <= k < insert_sorted(s, x).len() ==> (#[trigger] insert_sorted(s, x)[k])
            == x || s.contains(insert_sorted(s, x)[k]),
    decreases s.len(),
{
    let r = insert_sorted(s, x);
    if s.len() == 0 {
        assert(r[0] == x);
    } else if lex_lt(x.name(), s[0].name()) {
        assert forall|k: int| 0 <= k < r.len() implies (#[trigger] r[k]) == x || s.contains(
            r[k],
        ) by {
            if k > 0 {
                assert(r[k] == s[k - 1]);
            }
        }
    } else {
        lemma_insert_sorted_elems(s.drop_first(), x);
        let ri = insert_sorted(s.drop_first(), x);
        assert forall|k: int| 0 <= k < r.len() implies (#[trigger] r[k]) == x || s.contains(
            r[k],
        ) by {
            if k == 0 {
                assert(r[0] == s[0]);
                assert(s.contains(s[0]));
            } else {
                assert(r[k] == ri[k - 1]);
                if ri[k - 1] != x {
                    let t = choose|t: int|
                        0 <= t < s.drop_first().len() && s.drop_first()[t] == ri[k - 1];
                    assert(s[t + 1] == ri[k - 1]);
                    assert(s.contains(s[t + 1]));
                }
            }
        }
    }
}

proof fn lemma_insert_sorted_le(s: Seq<Node>, x: Node)
    requires
        names_sorted(s),
    ensures
        names_sorted(insert_sorted(s, x)),
    decreases s.len(),
{
    let r = insert_sorted(s, x);
    if s.len() == 0 {
    } else if lex_lt(x.name(), s[0].name()) {
        assert forall|i: int, j: int| 0 <= i < j < r.len() implies !lex_lt(
            r[j].name(),
            r[i].name(),
        ) by {
            assert(r[j] == s[j - 1]);
            if i == 0 {
                if lex_lt(s[j - 1].name(), x.name()) {
                    lemma_lex_lt_trans(s[j - 1].name(), x.name(), s[0].name());
                    if j == 1 {
                        lemma_lex_lt_irrefl(s[0].name());
                    }
                }
            } else {
                assert(r[i] == s[i - 1]);
            }
        }
    } else {
        lemma_insert_sorted_le(s.drop_first(), x);
        lemma_insert_sorted_elems(s.drop_first(), x);
        let ri = insert_sorted(s.drop_first(), x);
        assert forall|i: int, j: int| 0 <= i < j < r.len() implies !lex_lt(
            r[j].name(),
            r[i].name(),
        ) by {
            assert(r[j] == ri[j - 1]);
            if i == 0 {
                let y = ri[j - 1];
                if y != x {
                    let t = choose|t: int|
                        0 <= t < s.drop_first().len() && s.drop_first()[t] == y;
                    assert(s[t + 1] == y);
                }
            } else {
                assert(r[i] == ri[i - 1]);
            }
        }
    }
}

proof fn lemma_insert_sorted_distinct(s: Seq<Node>, x: Node)
    requires
        distinct_names(s),
        forall|t: int| 0 <= t < s.len() ==> (#[trigger] s[t]).name() != x.name(),
    ensures
        distinct_names(insert_sorted(s, x)),
    decreases s.len(),
{
    let r = insert_sorted(s, x);
    if s.len() == 0 {
    } else if lex_lt(x.name(), s[0].name()) {
        assert forall|i: int, j: int| 0 <= i < j < r.len() implies r[i].name() != r[j].name() by {
            assert(r[j] == s[j - 1]);
            if i > 0 {
                assert(r[i] == s[i - 1]);
            }
        }
    } else {
        assert(forall|t: int| 0 <= t < s.drop_first().len() ==> (#[trigger] s.drop_first()[t])
            == s[t + 1]);
        lemma_insert_sorted_distinct(s.drop_first(), x);
        lemma_insert_sorted_elems(s.drop_first(), x);
        let ri = insert_sorted(s.drop_first(), x);
        assert forall|i: int, j: int| 0 <= i < j < r.len() implies r[i].name() != r[j].name() by {
            assert(r[j] == ri[j - 1]);
            if i == 0 {
                let y = ri[j - 1];
                if y != x {
                    let t = choose|t: int|
                        0 <= t < s.drop_first().len() && s.drop_first()[t] == y;
                    assert(s[t + 1] == y);
                }
            } else {
                assert(r[i] == ri[i - 1]);
            }
        }
    }
}

proof fn lemma_sort_elems(s: Seq<Node>)
    ensures
        sort_by_name(s).len() == s.len(),
        forall|k: int| 0 <= k < sort_by_name(s).len() ==> s.contains(
            #[trigger] sort_by_name(s)[k],
        ),
    decreases s.len(),
{
    if s.len() > 0 {
        lemma_sort_elems(s.drop_last());
        lemma_insert_sorted_elems(sort_by_name(s.drop_last()), s.last());
        let sd = sort_by_name(s.drop_last());
        let r = sort_by_name(s);
        assert forall|k: int| 0 <= k < r.len() implies s.contains(#[trigger] r[k]) by {
            if r[k] == s.last() {
                assert(s[s.len() - 1] == s.last());
            } else {
                assert(sd.contains(r[k]));
                let t = choose|t: int| 0 <= t < sd.len() && sd[t] == r[k];
                assert(s.drop_last().contains(sd[t]));
                let u = choose|u: int| 0 <= u < s.drop_last().len() && s.drop_last()[u] == sd[t];
                assert(s[u] == sd[t]);
            }
        }
    }
}

proof fn lemma_sort_le(s: Seq<Node>)
    ensures
        names_sorted(sort_by_name(s)),
    decreases s.len(),
{
    if s.len() > 0 {
        lemma_sort_le(s.drop_last());
        lemma_insert_sorted_le(sort_by_name(s.drop_last()), s.last());
    }
}

proof fn lemma_sort_distinct(s: Seq<Node>)
    requires
        distinct_names(s),
    ensures
        distinct_names(sort_by_name(s)),
    decreases s.len(),
{
    if s.len() > 0 {
        let d = s.drop_last();
        assert(forall|t: int| 0 <= t < d.len() ==> (#[trigger] d[t]) == s[t]);
        lemma_sort_distinct(d);
        lemma_sort_elems(d);
        let sd = sort_by_name(d);
        assert forall|t: int| 0 <= t < sd.len() implies (#[trigger] sd[t]).name()
            != s.last().name() by {
            let u = choose|u: int| 0 <= u < d.len() && d[u] == sd[t];
            assert(s[u] == sd[t]);
            assert(s[u].name() != s[s.len() - 1].name());
        }
        lemma_insert_sorted_distinct(sd, s.last());
    }
}

proof fn lemma_prune_shape(n: Node, r: RulesView)
    ensures
        prune(n, r).name() == n.name(),
        prune(n, r).is_dir() == n.is_dir(),
{
}

proof fn lemma_prune_seq_elems(cs: Seq<Node>, r: RulesView)
    ensures
        forall|k: int| 0 <= k < prune_seq(cs, r).len() ==> exists|t: int|
            0 <= t < cs.len() && spec_keep(cs[t], r) && (#[trigger] prune_seq(cs, r)[k]) == prune(
                cs[t],
                r,
            ),
    decreases cs.len(),
{
    if cs.len() > 0 {
        lemma_prune_seq_elems(cs.drop_first(), r);
        let d = cs.drop_first();
        let rd = prune_seq(d, r);
        let rr = prune_seq(cs, r);
        assert forall|k: int| 0 <= k < rr.len() implies exists|t: int|
            0 <= t < cs.len() && spec_keep(cs[t], r) && (#[trigger] rr[k]) == prune(cs[t], r) by {
            if spec_keep(cs[0], r) {
                if k == 0 {
                    assert(rr[0] == prune(cs[0], r));
                    assert(0 <= 0 < cs.len() && spec_keep(cs[0], r) && rr[0] == prune(cs[0], r));
                } else {
                    assert(rr[k] == rd[k - 1]);
                    let t = choose|t: int|
                        0 <= t < d.len() && spec_keep(d[t], r) && rd[k - 1] == prune(d[t], r);
                    assert(d[t] == cs[t + 1]);
                    assert(0 <= t + 1 < cs.len() && spec_keep(cs[t + 1], r) && rr[k] == prune(
                        cs[t + 1],
                        r,
                    ));
                }
            } else {
                assert(rr[k] == rd[k]);
                let t = choose|t: int|
                    0 <= t < d.len() && spec_keep(d[t], r) && rd[k] == prune(d[t], r);
                assert(d[t] == cs[t + 1]);
                assert(0 <= t + 1 < cs.len() && spec_keep(cs[t + 1], r) && rr[k] == prune(
                    cs[t + 1],
                    r,
                ));
            }
        }
    }
}

proof fn lemma_prune_seq_distinct(cs: Seq<Node>, r: RulesView)
    requires
        distinct_names(cs),
    ensures
        distinct_names(prune_seq(cs, r)),
    decreases cs.len(),
{
    if cs.len() > 0 {
        let d = cs.drop_first();
        assert(forall|t: int| 0 <= t < d.len() ==> (#[trigger] d[t]) == cs[t + 1]);
        lemma_prune_seq_distinct(d, r);
        lemma_prune_seq_elems(d, r);
        let rd = prune_seq(d, r);
        let rr = prune_seq(cs, r);
        if spec_keep(cs[0], r) {
            assert forall|i: int, j: int| 0 <= i < j < rr.len() implies rr[i].name()
                != rr[j].name() by {
                if i == 0 {
                    assert(rr[0] == prune(cs[0], r));
                    lemma_prune_shape(cs[0], r);
                    assert(rr[j] == rd[j - 1]);
                    let t = choose|t: int|
                        0 <= t < d.len() && spec_keep(d[t], r) && rd[j - 1] == prune(d[t], r);
                    lemma_prune_shape(d[t], r);
                    assert(cs[t + 1].name() != cs[0].name());
                } else {
                    assert(rr[i] == rd[i - 1]);
                    assert(rr[j] == rd[j - 1]);
                }
            }
        }
    }
}

/// A tree is tidy when, in every directory, children are sorted by name
/// and no two share a name.  Pruning a well-formed tree yields a tidy one.
pub open spec fn tidy(n: Node) -> bool
    decreases n,
{
    match n {
        Node::File { .. } => true,
        Node::Dir { children, .. } => names_sorted(children) && distinct_names(children) && (
        forall|i: int| 0 <= i < children.len() ==> tidy(#[trigger] children[i])),
    }
}

pub proof fn lemma_prune_tidy(n: Node, r: RulesView)
    requires
        wf(n),
    ensures
        tidy(prune(n, r)),
    decreases n,
{
    match n {
        Node::File { .. } => {},
        Node::Dir { name, children } => {
            let ps = prune_seq(children, r);
            let sorted = sort_by_name(ps);
            lemma_prune_seq_distinct(children, r);
            lemma_sort_distinct(ps);
            lemma_sort_le(ps);
            lemma_sort_elems(ps);
            lemma_prune_seq_elems(children, r);
            assert forall|i: int| 0 <= i < sorted.len() implies tidy(#[trigger] sorted[i]) by {
                assert(ps.contains(sorted[i]));
                let k = choose|k: int| 0 <= k < ps.len() && ps[k] == sorted[i];
                let t = choose|t: int|
                    0 <= t < children.len() && spec_keep(children[t], r) && ps[k] == prune(
                        children[t],
                        r,
                    );
                lemma_prune_tidy(children[t], r);
            }
        },
    }
}

/// Every entry of a pruned tree, at every depth, is one the filter keeps.
pub open spec fn all_kept(n: Node, r: RulesView) -> bool
    decreases n,
{
    match n {
        Node::File { .. } => true,
        Node::Dir { children, .. } => forall|i: int| 0 <= i < children.len() ==> spec_keep(
            #[trigger] children[i],
            r,
        ) && all_kept(children[i], r),
    }
}

/// Law: a directory whose basename is among `ignored_directory_names`
/// never survives pruning, at any depth, even when it holds whitelisted
/// files -- the traversal drops it whole.  The tree renderer prints
/// exactly the pruned tree, so no such directory, nor anything beneath
/// one, ever appears in the tree output.
pub proof fn lemma_ignored_dir_never_in_tree(root: Node, r: RulesView)
    ensures
        all_kept(prune(root, r), r),
    decreases root,
{
    match root {
        Node::File { .. } => {},
        Node::Dir { name, children } => {
            let ps = prune_seq(children, r);
            let sorted = sort_by_name(ps);
            lemma_sort_elems(ps);
            lemma_prune_seq_elems(children, r);
            assert forall|i: int| 0 <= i < sorted.len() implies spec_keep(
                #[trigger] sorted[i],
                r,
            ) && all_kept(sorted[i], r) by {
                assert(ps.contains(sorted[i]));
                let k = choose|k: int| 0 <= k < ps.len() && ps[k] == sorted[i];
                let t = choose|t: int|
                    0 <= t < children.len() && spec_keep(children[t], r) && ps[k] == prune(
                        children[t],
                        r,
                    );
                lemma_prune_shape(children[t], r);
                lemma_ignored_dir_never_in_tree(children[t], r);
            }
        },
    }
}

proof fn lemma_insert_sorted_has(s: Seq<Node>, x: Node, y: Node)
    requires
        y == x || s.contains(y),
    ensures
        insert_sorted(s, x).contains(y),
    decreases s.len(),
{
    let ri = insert_sorted(s, x);
    if s.len() == 0 {
        assert(ri[0] == x);
    } else if lex_lt(x.name(), s[0].name()) {
        if y == x {
            assert(ri[0] == y);
        } else {
            let t = choose|t: int| 0 <= t < s.len() && s[t] == y;
            assert(ri[t + 1] == y);
        }
    } else {
        if y == s[0] {
            assert(ri[0] == y);
        } else {
            if y != x {
                let t = choose|t: int| 0 <= t < s.len() && s[t] == y;
                assert(s.drop_first()[t - 1] == y);
                assert(s.drop_first().contains(y));
            }
            lemma_insert_sorted_has(s.drop_first(), x, y);
            let u = choose|u: int|
                0 <= u < insert_sorted(s.drop_first(), x).len() && insert_sorted(
                    s.drop_first(),
                    x,
                )[u] == y;
            assert(ri[u + 1] == y);
        }
    }
}

proof fn lemma_sort_has(s: Seq<Node>, y: Node)
    requires
        s.contains(y),
    ensures
        sort_by_name(s).contains(y),
    decreases s.len(),
{
    if s.len() > 0 {
        let t = choose|t: int| 0 <= t < s.len() && s[t] == y;
        if t == s.len() - 1 {
            lemma_insert_sorted_has(sort_by_name(s.drop_last()), s.last(), y);
        } else {
            assert(s.drop_last()[t] == y);
            assert(s.drop_last().contains(y));
            lemma_sort_has(s.drop_last(), y);
            lemma_insert_sorted_has(sort_by_name(s.drop_last()), s.last(), y);
        }
    }
}

proof fn lemma_prune_seq_has(cs: Seq<Node>, i: int, r: RulesView)
    requires
        0 <= i < cs.len(),
        spec_keep(cs[i], r),
    ensures
        prune_seq(cs, r).contains(prune(cs[i], r)),
    decreases cs.len(),
{
    let ps = prune_seq(cs, r);
    if i == 0 {
        assert(ps[0] == prune(cs[0], r));
    } else {
        assert(cs.drop_first()[i - 1] == cs[i]);
        lemma_prune_seq_has(cs.drop_first(), i - 1, r);
        let pd = prune_seq(cs.drop_first(), r);
        let t = choose|t: int| 0 <= t < pd.len() && pd[t] == prune(cs[i], r);
        if spec_keep(cs[0], r) {
            assert(ps[t + 1] == prune(cs[i], r));
        } else {
            assert(ps[t] == prune(cs[i], r));
        }
    }
}

proof fn lemma_paths_entries_has(cs: Seq<Node>, t: int, q: Seq<Seq<char>>)
    requires
        0 <= t < cs.len(),
        spec_entry_paths(cs[t]).contains(q),
    ensures
        spec_paths_entries(cs).contains(q),
    decreases cs.len(),
{
    let ps = spec_paths_entries(cs);
    let head = spec_entry_paths(cs[0]);
    if t == 0 {
        let u = choose|u: int| 0 <= u < head.len() && head[u] == q;
        assert(ps[u] == q);
    } else {
        assert(cs.drop_first()[t - 1] == cs[t]);
        lemma_paths_entries_has(cs.drop_first(), t - 1, q);
        let rest = spec_paths_entries(cs.drop_first());
        let u = choose|u: int| 0 <= u < rest.len() && rest[u] == q;
        assert(ps[head.len() + u] == q);
    }
}

/// Law: a file the filter includes -- for one, any whitelisted file --
/// standing directly in a root whose own name is not ignored, always
/// appears in the collected list, as the one-component path of its name.
pub proof fn lemma_included_file_collected(root: Node, i: int, r: RulesView)
    requires
        root is Dir,
        0 <= i < root.children().len(),
        !(root.children()[i] is Dir),
        crate::filter::spec_file_included(root.children()[i].name(), r),
        !r.ignored_directory_names.contains(root.name()),
    ensures
        spec_collect(root, r).contains(seq![root.children()[i].name()]),
{
    let child = root.children()[i];
    assert(spec_keep(child, r));
    lemma_prune_seq_has(root.children(), i, r);
    assert(prune(child, r) == child);
    lemma_sort_has(prune_seq(root.children(), r), child);
    let sorted = sort_by_name(prune_seq(root.children(), r));
    let k = choose|k: int| 0 <= k < sorted.len() && sorted[k] == child;
    assert(prune(root, r).children() == sorted);
    assert(spec_entry_paths(child)[0] == seq![child.name()]);
    assert(spec_entry_paths(child).contains(seq![child.name()]));
    lemma_paths_entries_has(sorted, k, seq![child.name()]);
}

proof fn lemma_prune_seq_remove(cs: Seq<Node>, i: int, r: RulesView)
    requires
        0 <= i < cs.len(),
        !spec_keep(cs[i], r),
    ensures
        prune_seq(cs.remove(i), r) =~= prune_seq(cs, r),
    decreases cs.len(),
{
    if i == 0 {
        assert(cs.remove(0) =~= cs.drop_first());
    } else {
        assert(cs.remove(i)[0] == cs[0]);
        assert(cs.remove(i).drop_first() =~= cs.drop_first().remove(i - 1));
        lemma_prune_seq_remove(cs.drop_first(), i - 1, r);
    }
}

/// Law: an entry that the filter rejects -- in particular a directory
/// whose basename is among `ignored_directory_names`, whatever files it
/// holds -- can be removed from its directory without changing the pruned
/// tree or the collected file list at all.  The tree renderer and the
/// collector are functions of the pruned tree, so such an entry never
/// appears in either output.
pub proof fn lemma_filtered_child_invisible(
    name: Seq<char>,
    children: Seq<Node>,
    i: int,
    r: RulesView,
)
    requires
        0 <= i < children.len(),
        !spec_keep(children[i], r),
    ensures
        prune(Node::Dir { name, children }, r) == prune(
            Node::Dir { name, children: children.remove(i) },
            r,
        ),
        spec_collect(Node::Dir { name, children }, r) == spec_collect(
            Node::Dir { name, children: children.remove(i) },
            r,
        ),
{
    lemma_prune_seq_remove(children, i, r);
}

/// Strict lexicographic order on paths, component by component.
pub open spec fn path_lt(a: Seq<Seq<char>>, b: Seq<Seq<char>>) -> bool
    decreases a.len(),
{
    if b.len() == 0 {
        false
    } else if a.len() == 0 {
        true
    } else if a[0] == b[0] {
        path_lt(a.drop_first(), b.drop_first())
    } else {
        lex_lt(a[0], b[0])
    }
}

pub open spec fn paths_sorted(ps: Seq<Seq<Seq<char>>>) -> bool {
    forall|i: int, j: int| 0 <= i < j < ps.len() ==> path_lt(ps[i], ps[j])
}

proof fn lemma_entry_paths_shape(n: Node)
    ensures
        forall|k: int| 0 <= k < spec_entry_paths(n).len() ==> (#[trigger] spec_entry_paths(
            n,
        )[k]).len() >= 1 && spec_entry_paths(n)[k][0] == n.name(),
{
    let ps = spec_entry_paths(n);
    match n {
        Node::File { name, .. } => {
            assert(ps[0] == seq![name]);
        },
        Node::Dir { name, children } => {
            let inner = spec_paths_entries(children);
            assert forall|k: int| 0 <= k < ps.len() implies (#[trigger] ps[k]).len() >= 1
                && ps[k][0] == n.name() by {
                assert(ps[k] == seq![name] + inner[k]);
            }
        },
    }
}

proof fn lemma_paths_entries_shape(cs: Seq<Node>)
    ensures
        forall|k: int| 0 <= k < spec_paths_entries(cs).len() ==> exists|t: int|
            0 <= t < cs.len() && (#[trigger] spec_paths_entries(cs)[k]).len() >= 1
                && spec_paths_entries(cs)[k][0] == cs[t].name(),
    decreases cs.len(),
{
    if cs.len() > 0 {
        let head = spec_entry_paths(cs[0]);
        let rest = spec_paths_entries(cs.drop_first());
        let ps = spec_paths_entries(cs);
        lemma_entry_paths_shape(cs[0]);
        lemma_paths_entries_shape(cs.drop_first());
        assert forall|k: int| 0 <= k < ps.len() implies exists|t: int|
            0 <= t < cs.len() && (#[trigger] ps[k]).len() >= 1 && ps[k][0] == cs[t].name() by {
            if k < head.len() {
                assert(ps[k] == head[k]);
                assert(0 <= 0 < cs.len() && ps[k].len() >= 1 && ps[k][0] == cs[0].name());
            } else {
                assert(ps[k] == rest[k - head.len()]);
                let t = choose|t: int|
                    0 <= t < cs.drop_first().len() && rest[k - head.len()].len() >= 1 && rest[k
                        - head.len()][0] == cs.drop_first()[t].name();
                assert(cs.drop_first()[t] == cs[t + 1]);
                assert(0 <= t + 1 < cs.len() && ps[k].len() >= 1 && ps[k][0] == cs[t
                    + 1].name());
            }
        }
    }
}

proof fn lemma_entry_paths_sorted(n: Node)
    requires
        tidy(n),
    ensures
        paths_sorted(spec_entry_paths(n)),
    decreases n,
{
    let ps = spec_entry_paths(n);
    match n {
        Node::File { .. } => {},
        Node::Dir { name, children } => {
            lemma_paths_entries_sorted(children);
            let inner = spec_paths_entries(children);
            assert forall|i: int, j: int| 0 <= i < j < ps.len() implies path_lt(
                ps[i],
                ps[j],
            ) by {
                assert(ps[i] == seq![name] + inner[i]);
                assert(ps[j] == seq![name] + inner[j]);
                assert(path_lt(inner[i], inner[j]));
                assert((seq![name] + inner[i]).drop_first() =~= inner[i]);
                assert((seq![name] + inner[j]).drop_first() =~= inner[j]);
                assert((seq![name] + inner[i])[0] == name);
                assert((seq![name] + inner[j])[0] == name);
            }
        },
    }
}

proof fn lemma_paths_entries_sorted(cs: Seq<Node>)
    requires
        names_sorted(cs),
        distinct_names(cs),
        forall|i: int| 0 <= i < cs.len() ==> tidy(#[trigger] cs[i]),
    ensures
        paths_sorted(spec_paths_entries(cs)),
    decreases cs,
{
    if cs.len() > 0 {
        let d = cs.drop_first();
        let head = spec_entry_paths(cs[0]);
        let rest = spec_paths_entries(d);
        let ps = spec_paths_entries(cs);
        assert(forall|t: int| 0 <= t < d.len() ==> (#[trigger] d[t]) == cs[t + 1]);
        lemma_entry_paths_sorted(cs[0]);
        lemma_paths_entries_sorted(d);
        lemma_entry_paths_shape(cs[0]);
        lemma_paths_entries_shape(d);
        assert forall|i: int, j: int| 0 <= i < j < ps.len() implies path_lt(ps[i], ps[j]) by {
            if j < head.len() {
                assert(ps[i] == head[i]);
                assert(ps[j] == head[j]);
            } else if i >= head.len() {
                assert(ps[i] == rest[i - head.len()]);
                assert(ps[j] == rest[j - head.len()]);
            } else {
                let p = head[i];
                let q = rest[j - head.len()];
                assert(ps[i] == p);
                assert(ps[j] == q);
                assert(p.len() >= 1 && p[0] == cs[0].name());
                let t = choose|t: int|
                    0 <= t < d.len() && q.len() >= 1 && q[0] == d[t].name();
                assert(d[t] == cs[t + 1]);
                assert(!lex_lt(cs[t + 1].name(), cs[0].name()));
                assert(cs[0].name() != cs[t + 1].name());
                lemma_lex_lt_connected(cs[0].name(), cs[t + 1].name());
                assert(lex_lt(p[0], q[0]));
                if p[0] == q[0] {
                    lemma_lex_lt_irrefl(p[0]);
                }
            }
        }
    }
}

/// Law: for a well-formed tree (no two children of one directory share a
/// name -- what a real filesystem guarantees), the collected file list is
/// strictly sorted by path relative to the root, component by component.
/// The list is a pure function of the tree value, so it is independent of
/// the order in which the filesystem handed entries over.
pub proof fn lemma_collect_sorted(root: Node, r: RulesView)
    requires
        wf(root),
    ensures
        paths_sorted(spec_collect(root, r)),
{
    if !r.ignored_directory_names.contains(root.name()) {
        lemma_prune_tidy(root, r);
        let p = prune(root, r);
        match p {
            Node::File { .. } => {},
            Node::Dir { name, children } => {
                lemma_paths_entries_sorted(children);
            },
        }
    }
}

/// Every component of `p` before the last one -- the directories a
/// collected file lies under -- is outside the ignored directory names.
pub open spec fn path_interior_clean(p: Seq<Seq<char>>, r: RulesView) -> bool {
    forall|k: int| 0 <= k < p.len() - 1 ==> !r.ignored_directory_names.contains(#[trigger] p[k])
}

pub open spec fn paths_clean(ps: Seq<Seq<Seq<char>>>, r: RulesView) -> bool {
    forall|i: int| 0 <= i < ps.len() ==> path_interior_clean(#[trigger] ps[i], r)
}

proof fn lemma_entry_paths_clean(n: Node, r: RulesView)
    requires
        all_kept(n, r),
        n.is_dir() ==> !r.ignored_directory_names.contains(n.name()),
    ensures
        paths_clean(spec_entry_paths(n), r),
    decreases n,
{
    let ps = spec_entry_paths(n);
    match n {
        Node::File { name, .. } => {
            assert(ps[0] == seq![name]);
            assert(path_interior_clean(seq![name], r));
        },
        Node::Dir { name, children } => {
            lemma_paths_entries_clean(children, r);
            let inner = spec_paths_entries(children);
            assert forall|i: int| 0 <= i < ps.len() implies path_interior_clean(
                #[trigger] ps[i],
                r,
            ) by {
                assert(ps[i] == seq![name] + inner[i]);
                assert(path_interior_clean(inner[i], r));
                assert forall|k: int| 0 <= k < ps[i].len() - 1 implies !r
                    .ignored_directory_names.contains(#[trigger] ps[i][k]) by {
                    if k > 0 {
                        assert(ps[i][k] == inner[i][k - 1]);
                    }
                }
            }
        },
    }
}

proof fn lemma_paths_entries_clean(cs: Seq<Node>, r: RulesView)
    requires
        forall|i: int| 0 <= i < cs.len() ==> spec_keep(#[trigger] cs[i], r) && all_kept(
            cs[i],
            r,
        ),
    ensures
        paths_clean(spec_paths_entries(cs), r),
    decreases cs,
{
    if cs.len() > 0 {
        let d = cs.drop_first();
        assert(forall|t: int| 0 <= t < d.len() ==> (#[trigger] d[t]) == cs[t + 1]);
        lemma_entry_paths_clean(cs[0], r);
        lemma_paths_entries_clean(d, r);
        let head = spec_entry_paths(cs[0]);
        let rest = spec_paths_entries(d);
        let ps = spec_paths_entries(cs);
        assert forall|i: int| 0 <= i < ps.len() implies path_interior_clean(
            #[trigger] ps[i],
            r,
        ) by {
            if i < head.len() {
                assert(ps[i] == head[i]);
            } else {
                assert(ps[i] == rest[i - head.len()]);
            }
        }
    }
}

/// Law: no collected file lies under a directory whose basename is among
/// `ignored_directory_names` -- whatever it holds, whitelisted files
/// included, nothing under such a directory is ever collected.
pub proof fn lemma_ignored_dir_never_collected(root: Node, r: RulesView)
    ensures
        paths_clean(spec_collect(root, r), r),
{
    if !r.ignored_directory_names.contains(root.name()) {
        lemma_ignored_dir_never_in_tree(root, r);
        let p = prune(root, r);
        match p {
            Node::File { .. } => {},
            Node::Dir { name, children } => {
                lemma_paths_entries_clean(children, r);
            },
        }
    }
}

} // verus!
