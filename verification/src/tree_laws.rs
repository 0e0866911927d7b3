//! What holds of the key tree as a whole.
use vstd::prelude::*;

use crate::keyed::{ascending, lemma_ascending_distinct};
use crate::text::{lemma_text_lt_irreflexive, lemma_text_lt_transitive, text_lt};
use crate::tree::{
    child_of, forest_rows, forest_wf, has_key, keys_under, lemma_cardinality, lemma_child_unique,
    named, node_rows, path_under, sibling_segments, stem, FlattenModel, NodeModel, RowKind,
    RowModel, TreeModel,
};

verus! {

/// Two ascending lists with the same members are the same list.
pub proof fn lemma_ascending_unique(a: Seq<Seq<char>>, b: Seq<Seq<char>>)
    requires
        ascending(a),
        ascending(b),
        forall|x: Seq<char>| a.contains(x) <==> b.contains(x),
    ensures
        a == b,
    decreases a.len(),
{
    lemma_ascending_distinct(a);
    lemma_ascending_distinct(b);
    if a.len() == 0 {
        if b.len() > 0 {
            assert(b.contains(b[0]));
            assert(a.contains(b[0]));
        }
        assert(a =~= b);
    } else {
        assert(a.contains(a[a.len() - 1]));
        assert(b.contains(a[a.len() - 1]));
        let ia = a.len() - 1;
        let ib = b.len() - 1;
        // The last members are the largest of each, so they agree.
        assert(a.contains(b[ib])) by {
            assert(b.contains(b[ib]));
        }
        let j = choose|j: int| 0 <= j < b.len() && b[j] == a[ia];
        let i = choose|i: int| 0 <= i < a.len() && a[i] == b[ib];
        if j < ib {
            assert(text_lt(b[j], b[ib]));
            if i < ia {
                assert(text_lt(a[i], a[ia]));
                lemma_text_lt_transitive(a[ia], b[ib], a[ia]);
            }
            lemma_text_lt_irreflexive(a[ia]);
        }
        assert(a.last() == b.last());
        let a0 = a.drop_last();
        let b0 = b.drop_last();
        assert forall|x: Seq<char>| a0.contains(x) <==> b0.contains(x) by {
            if a0.contains(x) {
                let k = choose|k: int| 0 <= k < a0.len() && a0[k] == x;
                assert(a[k] == x);
                assert(a.contains(x));
                assert(b.contains(x));
                let m = choose|m: int| 0 <= m < b.len() && b[m] == x;
                assert(a[k] != a[ia]);
                assert(m < ib);
                assert(b0[m] == x);
            }
            if b0.contains(x) {
                let k = choose|k: int| 0 <= k < b0.len() && b0[k] == x;
                assert(b[k] == x);
                assert(b.contains(x));
                assert(a.contains(x));
                let m = choose|m: int| 0 <= m < a.len() && a[m] == x;
                assert(b[k] != b[ib]);
                assert(m < ia);
                assert(a0[m] == x);
            }
        }
        assert(ascending(a0)) by {
            assert forall|p: int, q: int| 0 <= p < q < a0.len() implies text_lt(
                #[trigger] a0[p],
                #[trigger] a0[q],
            ) by {
                assert(text_lt(a[p], a[q]));
            }
        }
        assert(ascending(b0)) by {
            assert forall|p: int, q: int| 0 <= p < q < b0.len() implies text_lt(
                #[trigger] b0[p],
                #[trigger] b0[q],
            ) by {
                assert(text_lt(b[p], b[q]));
            }
        }
        lemma_ascending_unique(a0, b0);
        assert(a =~= a0.push(a.last()));
        assert(b =~= b0.push(b.last()));
    }
}

/// Something is stored below every sibling.
pub proof fn lemma_sibling_has_key(forest: Seq<NodeModel>, i: int) -> (s: Seq<Seq<char>>)
    requires
        forest_wf(forest),
        0 <= i < forest.len(),
    ensures
        has_key(stem(forest), s),
        s.len() > 0,
        s[0] == forest[i].segment,
{
    lemma_cardinality(forest[i]);
    let t = keys_under(forest[i]).choose();
    assert(keys_under(forest[i]).contains(t)) by {
        vstd::set_lib::lemma_set_empty_equivalency_len(keys_under(forest[i]));
    }
    let s = seq![forest[i].segment] + t;
    lemma_child_unique(forest, i);
    assert(s.drop_first() =~= t);
    s
}

proof fn lemma_same_segments(a: Seq<NodeModel>, b: Seq<NodeModel>)
    requires
        forest_wf(a),
        forest_wf(b),
        keys_under(stem(a)) == keys_under(stem(b)),
    ensures
        forall|x: Seq<char>| sibling_segments(a).contains(x) ==> sibling_segments(b).contains(x),
{
    assert forall|x: Seq<char>| sibling_segments(a).contains(x) implies sibling_segments(
        b,
    ).contains(x) by {
        let i = choose|i: int| 0 <= i < a.len() && sibling_segments(a)[i] == x;
        let s = lemma_sibling_has_key(a, i);
        assert(keys_under(stem(a)).contains(s));
        assert(keys_under(stem(b)).contains(s));
        assert(child_of(b, s[0]) is Some);
        let j = choose|j: int| named(b, s[0], j);
        assert(sibling_segments(b)[j] == x);
    }
}

/// The tree is determined by its keys: the order in which they came, and what
/// was inserted and removed again in between, leaves no trace.
pub proof fn law_tree_is_determined_by_its_keys(a: Seq<NodeModel>, b: Seq<NodeModel>)
    requires
        forest_wf(a),
        forest_wf(b),
        keys_under(stem(a)) == keys_under(stem(b)),
    ensures
        a == b,
    decreases a,
{
    lemma_same_segments(a, b);
    lemma_same_segments(b, a);
    lemma_ascending_unique(sibling_segments(a), sibling_segments(b));
    assert(a.len() == sibling_segments(a).len());
    assert(b.len() == sibling_segments(b).len());
    assert forall|i: int| 0 <= i < a.len() implies a[i] == b[i] by {
        assert(sibling_segments(a)[i] == sibling_segments(b)[i]);
        lemma_child_unique(a, i);
        lemma_child_unique(b, i);
        let seg = a[i].segment;
        assert forall|t: Seq<Seq<char>>| has_key(a[i], t) == has_key(b[i], t) by {
            let s = seq![seg] + t;
            assert(s.drop_first() =~= t);
            assert(s[0] == seg && b[i].segment == seg);
            assert(has_key(stem(a), s) == has_key(a[i], t));
            assert(has_key(stem(b), s) == has_key(b[i], t));
            assert(keys_under(stem(a)).contains(s) == has_key(stem(a), s));
            assert(keys_under(stem(b)).contains(s) == has_key(stem(b), s));
        }
        assert(has_key(a[i], Seq::empty()) == a[i].is_key);
        assert(has_key(b[i], Seq::empty()) == b[i].is_key);
        assert(keys_under(stem(a[i].children)) =~= keys_under(stem(b[i].children))) by {
            assert forall|t: Seq<Seq<char>>|
                keys_under(stem(a[i].children)).contains(t) <==> keys_under(
                    stem(b[i].children),
                ).contains(t) by {
                if t.len() > 0 {
                    assert(has_key(a[i], t) == has_key(stem(a[i].children), t));
                    assert(has_key(b[i], t) == has_key(stem(b[i].children), t));
                }
            }
        }
        law_tree_is_determined_by_its_keys(a[i].children, b[i].children);
    }
    assert(a =~= b);
}

/// Removing a key that was just added gives back the tree as it was, whatever
/// nodes the insertion had to add.
pub proof fn law_remove_undoes_insert(
    before: TreeModel,
    added: TreeModel,
    removed: TreeModel,
    key: Seq<Seq<char>>,
)
    requires
        before.wf(),
        added.wf(),
        removed.wf(),
        !before.keys().contains(key),
        added.keys() == before.keys().insert(key),
        removed.keys() == added.keys().remove(key),
    ensures
        removed.forest == before.forest,
{
    assert(before.keys().insert(key).remove(key) =~= before.keys());
    law_tree_is_determined_by_its_keys(removed.forest, before.forest);
}

/// While a filter is active, neither the expansion state nor the fold threshold
/// has any say in what is shown.
pub proof fn law_filtering_overrides_folding(
    forest: Seq<NodeModel>,
    parent: Seq<char>,
    a: FlattenModel,
    b: FlattenModel,
    depth: nat,
    matched: bool,
)
    requires
        a.filtering(),
        a.filter == b.filter,
    ensures
        forest_rows(forest, parent, a, depth, matched) == forest_rows(
            forest,
            parent,
            b,
            depth,
            matched,
        ),
    decreases forest,
{
    if forest.len() > 0 {
        law_filtering_overrides_folding(forest.drop_last(), parent, a, b, depth, matched);
        let node = forest.last();
        let path = path_under(parent, node.segment);
        law_filtering_overrides_folding(
            node.children,
            path,
            a,
            b,
            depth + 1,
            matched || a.accepts(path),
        );
        assert(node_rows(node, path, a, depth, matched) == node_rows(node, path, b, depth, matched));
    }
}

/// The number of nodes in a list of siblings and below.
pub open spec fn nodes_in(forest: Seq<NodeModel>) -> nat
    decreases forest,
{
    if forest.len() == 0 {
        0
    } else {
        nodes_in(forest.drop_last()) + 1 + nodes_in(forest.last().children)
    }
}

/// Under a filter, everything below a branch that matches is shown: one row for
/// each node.
pub proof fn law_matching_branch_keeps_its_subtree(
    forest: Seq<NodeModel>,
    parent: Seq<char>,
    o: FlattenModel,
    depth: nat,
)
    requires
        o.filtering(),
    ensures
        forest_rows(forest, parent, o, depth, true).len() == nodes_in(forest),
    decreases forest,
{
    if forest.len() > 0 {
        law_matching_branch_keeps_its_subtree(forest.drop_last(), parent, o, depth);
        let node = forest.last();
        let path = path_under(parent, node.segment);
        law_matching_branch_keeps_its_subtree(node.children, path, o, depth + 1);
        let own = node_rows(node, path, o, depth, true);
        assert(own.len() == 1 + nodes_in(node.children));
    }
}

/// Without a filter, a tree whose branches are all closed shows one row for each
/// of its top-level segments.
pub proof fn law_collapsed_branches_hide_their_descendants(
    forest: Seq<NodeModel>,
    parent: Seq<char>,
    o: FlattenModel,
    depth: nat,
    matched: bool,
)
    requires
        !o.filtering(),
        o.expanded == Set::<Seq<char>>::empty(),
    ensures
        forest_rows(forest, parent, o, depth, matched).len() == forest.len(),
        forall|i: int|
            0 <= i < forest.len() ==> (#[trigger] forest_rows(
                forest,
                parent,
                o,
                depth,
                matched,
            )[i]).segment == forest[i].segment,
    decreases forest.len(),
{
    if forest.len() > 0 {
        law_collapsed_branches_hide_their_descendants(
            forest.drop_last(),
            parent,
            o,
            depth,
            matched,
        );
        let node = forest.last();
        let own = node_rows(node, path_under(parent, node.segment), o, depth, matched);
        assert(own.len() == 1);
        assert(own[0].segment == node.segment);
        let init = forest_rows(forest.drop_last(), parent, o, depth, matched);
        let all = forest_rows(forest, parent, o, depth, matched);
        assert(all == init + own);
        assert forall|i: int| 0 <= i < forest.len() implies (#[trigger] all[i]).segment
            == forest[i].segment by {
            if i < forest.len() - 1 {
                assert(all[i] == init[i]);
                assert(forest.drop_last()[i] == forest[i]);
            }
        }
    }
}

/// Whether some row's own path satisfies the filter.
pub open spec fn some_match(rows: Seq<RowModel>, o: FlattenModel) -> bool {
    exists|i: int| 0 <= i < rows.len() && o.accepts((#[trigger] rows[i]).path)
}

/// A filter shows rows only where something matches it: a filter that matches no
/// path yields no rows.
pub proof fn law_no_match_no_rows(
    forest: Seq<NodeModel>,
    parent: Seq<char>,
    o: FlattenModel,
    depth: nat,
)
    requires
        o.filtering(),
    ensures
        forest_rows(forest, parent, o, depth, false).len() > 0 ==> some_match(
            forest_rows(forest, parent, o, depth, false),
            o,
        ),
    decreases forest,
{
    if forest.len() > 0 {
        let init = forest_rows(forest.drop_last(), parent, o, depth, false);
        let node = forest.last();
        let path = path_under(parent, node.segment);
        let own = node_rows(node, path, o, depth, false);
        let all = forest_rows(forest, parent, o, depth, false);
        law_no_match_no_rows(forest.drop_last(), parent, o, depth);
        if init.len() > 0 {
            let i = choose|i: int| 0 <= i < init.len() && o.accepts((#[trigger] init[i]).path);
            assert(all[i] == init[i]);
        } else if own.len() > 0 {
            assert(all =~= own);
            if o.accepts(path) {
                assert(own[0].path == path);
                assert(o.accepts(all[0].path));
            } else {
                law_no_match_no_rows(node.children, path, o, depth + 1);
                let below = forest_rows(node.children, path, o, depth + 1, false);
                let i = choose|i: int|
                    0 <= i < below.len() && o.accepts((#[trigger] below[i]).path);
                assert(own[i + 1] == below[i]);
                assert(o.accepts(all[i + 1].path));
            }
        }
    }
}

/// Whether one row stands directly below another: a child of an open branch, or the
/// summary of its children.
pub open spec fn hangs_below(child: RowModel, parent: RowModel) -> bool {
    &&& child.depth == parent.depth + 1
    &&& parent.kind == (RowKind::Branch { expanded: true })
    &&& if child.kind is FoldSummary {
        child.path == parent.path
    } else {
        child.path == path_under(parent.path, child.segment)
    }
}

/// Whether a row has the row it hangs below somewhere above it.
pub open spec fn has_parent_above(rows: Seq<RowModel>, i: int) -> bool {
    exists|j: int| 0 <= j < i && #[trigger] hangs_below(rows[i], rows[j])
}

/// Whether a row is a child of `parent` itself.
pub open spec fn hangs_from(row: RowModel, parent: Seq<char>, depth: nat) -> bool {
    row.depth == depth && !(row.kind is FoldSummary) && row.path == path_under(parent, row.segment)
}

proof fn lemma_shifted_parent(own: RowModel, below: Seq<RowModel>, k: int)
    requires
        0 <= k < below.len(),
        has_parent_above(below, k),
    ensures
        has_parent_above(seq![own] + below, k + 1),
{
    let j = choose|j: int| 0 <= j < k && #[trigger] hangs_below(below[k], below[j]);
    let rows = seq![own] + below;
    assert(rows[k + 1] == below[k]);
    assert(rows[j + 1] == below[j]);
    assert(hangs_below(rows[k + 1], rows[j + 1]));
}

proof fn lemma_node_rows_hang(
    node: NodeModel,
    path: Seq<char>,
    o: FlattenModel,
    depth: nat,
    ancestor_matched: bool,
)
    ensures
        ({
            let rows = node_rows(node, path, o, depth, ancestor_matched);
            &&& rows.len() > 0 ==> rows[0].path == path && rows[0].segment == node.segment
                && rows[0].depth == depth && !(rows[0].kind is FoldSummary)
            &&& forall|i: int| 0 < i < rows.len() ==> #[trigger] has_parent_above(rows, i)
        }),
    decreases node, 1int,
{
    let rows = node_rows(node, path, o, depth, ancestor_matched);
    let matched = ancestor_matched || o.accepts(path);
    if rows.len() > 1 {
        let own = rows[0];
        let below = rows.skip(1);
        assert(rows =~= seq![own] + below);
        if o.folds(path, node.children.len()) {
            assert(hangs_below(rows[1], rows[0]));
            assert(has_parent_above(rows, 1));
        } else {
            lemma_forest_rows_hang(node.children, path, o, depth + 1, matched);
            assert(below =~= forest_rows(node.children, path, o, depth + 1, matched));
            assert forall|i: int| 0 < i < rows.len() implies #[trigger] has_parent_above(
                rows,
                i,
            ) by {
                assert(rows[i] == below[i - 1]);
                if has_parent_above(below, i - 1) {
                    lemma_shifted_parent(own, below, i - 1);
                } else {
                    assert(hangs_from(below[i - 1], path, depth + 1));
                    assert(hangs_below(rows[i], rows[0]));
                }
            }
        }
    }
}

proof fn lemma_forest_rows_hang(
    forest: Seq<NodeModel>,
    parent: Seq<char>,
    o: FlattenModel,
    depth: nat,
    ancestor_matched: bool,
)
    ensures
        forall|i: int|
            0 <= i < forest_rows(forest, parent, o, depth, ancestor_matched).len() ==> hangs_from(
                #[trigger] forest_rows(forest, parent, o, depth, ancestor_matched)[i],
                parent,
                depth,
            ) || has_parent_above(forest_rows(forest, parent, o, depth, ancestor_matched), i),
    decreases forest, 0int,
{
    if forest.len() > 0 {
        let path = path_under(parent, forest.last().segment);
        lemma_forest_rows_hang(forest.drop_last(), parent, o, depth, ancestor_matched);
        lemma_node_rows_hang(forest.last(), path, o, depth, ancestor_matched);
        let before = forest_rows(forest.drop_last(), parent, o, depth, ancestor_matched);
        let last = node_rows(forest.last(), path, o, depth, ancestor_matched);
        let rows = forest_rows(forest, parent, o, depth, ancestor_matched);
        let n = before.len() as int;
        assert forall|i: int| 0 <= i < rows.len() implies hangs_from(
            #[trigger] rows[i],
            parent,
            depth,
        ) || has_parent_above(rows, i) by {
            if i < n {
                assert(rows[i] == before[i]);
                if has_parent_above(before, i) {
                    let j = choose|j: int| 0 <= j < i && #[trigger] hangs_below(
                        before[i],
                        before[j],
                    );
                    assert(rows[j] == before[j]);
                    assert(hangs_below(rows[i], rows[j]));
                }
            } else {
                assert(rows[i] == last[i - n]);
                if i > n {
                    assert(has_parent_above(last, i - n));
                    let j = choose|j: int| 0 <= j < i - n && #[trigger] hangs_below(
                        last[i - n],
                        last[j],
                    );
                    assert(rows[j + n] == last[j]);
                    assert(hangs_below(rows[i], rows[j + n]));
                }
            }
        }
    }
}

/// Every row can be walked up to the top: it stands at the top itself, or the open
/// branch that it hangs below is listed above it. So a deep match under a filter pulls
/// its ancestors along.
pub proof fn law_rows_can_be_walked_up(forest: Seq<NodeModel>, o: FlattenModel, i: int)
    requires
        0 <= i < forest_rows(forest, Seq::empty(), o, 0, false).len(),
    ensures
        forest_rows(forest, Seq::empty(), o, 0, false)[i].depth == 0 || has_parent_above(
            forest_rows(forest, Seq::empty(), o, 0, false),
            i,
        ),
{
    lemma_forest_rows_hang(forest, Seq::empty(), o, 0, false);
    assert(hangs_from(
        forest_rows(forest, Seq::empty(), o, 0, false)[i],
        Seq::empty(),
        0,
    ) || has_parent_above(forest_rows(forest, Seq::empty(), o, 0, false), i));
}

} // verus!
