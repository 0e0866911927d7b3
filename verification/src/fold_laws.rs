//! Which rows of the key tree are visible while nothing is filtered: what the user has
//! opened, and what is folded away for being too much.
use vstd::prelude::*;

use crate::row_laws::{lemma_row_from, lemma_row_into, rows_of, sibling_rows};
use crate::text::{joined, segments};
use crate::tree::{
    count, find_node, forest_rows, forest_wf, named, stem, FlattenModel, NodeModel, RowKind,
    RowModel, TreeModel,
};
use crate::tree_paths::{
    clean_all, lemma_first_step, lemma_found, lemma_joined_push, lemma_segments_joined,
};

verus! {

/// Whether the user sees what is directly below a branch: it is open, and has no more
/// children than are listed, or all of them were asked for.
pub open spec fn lists_children(o: FlattenModel, path: Seq<char>, children: nat) -> bool {
    &&& o.expanded.contains(path)
    &&& children <= o.fold_threshold || o.unfolded.contains(path)
}

/// The number of children of the node that the segments lead to.
pub open spec fn children_at(forest: Seq<NodeModel>, segs: Seq<Seq<char>>) -> nat {
    find_node(stem(forest), segs)->0.children.len()
}

/// Whether every branch above a node lists its children, at every depth below `base`.
pub open spec fn listed_above(
    forest: Seq<NodeModel>,
    base: Seq<Seq<char>>,
    o: FlattenModel,
    segs: Seq<Seq<char>>,
) -> bool {
    forall|j: int|
        0 < j < segs.len() ==> lists_children(
            o,
            joined(base + #[trigger] segs.take(j)),
            children_at(forest, segs.take(j)),
        )
}

/// Whether a node is to be seen, or the summary that stands for its children.
spec fn visible(
    forest: Seq<NodeModel>,
    base: Seq<Seq<char>>,
    o: FlattenModel,
    segs: Seq<Seq<char>>,
    summary: bool,
) -> bool {
    let path = joined(base + segs);
    &&& segs.len() > 0
    &&& find_node(stem(forest), segs) is Some
    &&& listed_above(forest, base, o, segs)
    &&& summary ==> {
        &&& o.expanded.contains(path)
        &&& !o.unfolded.contains(path)
        &&& children_at(forest, segs) > o.fold_threshold
    }
}

/// Whether a row shows the node, or the summary of its children.
spec fn shows(
    forest: Seq<NodeModel>,
    base: Seq<Seq<char>>,
    o: FlattenModel,
    segs: Seq<Seq<char>>,
    row: RowModel,
) -> bool {
    &&& row.path == joined(base + segs)
    &&& visible(forest, base, o, segs, row.kind is FoldSummary)
    &&& match row.kind {
        RowKind::FoldSummary { hidden } => hidden == children_at(forest, segs) as usize,
        RowKind::Branch { expanded } => expanded == o.expanded.contains(row.path)
            && children_at(forest, segs) > 0,
        RowKind::Leaf => children_at(forest, segs) == 0,
    }
}

/// What is seen below a sibling that lists its children is seen from among the siblings.
proof fn lemma_visible_above(
    forest: Seq<NodeModel>,
    base: Seq<Seq<char>>,
    o: FlattenModel,
    k: int,
    rest: Seq<Seq<char>>,
    summary: bool,
)
    requires
        forest_wf(forest),
        0 <= k < forest.len(),
        rest.len() > 0,
    ensures
        ({
            let here = base.push(forest[k].segment);
            let segs = seq![forest[k].segment] + rest;
            &&& base + segs == here + rest
            &&& find_node(stem(forest), segs) == find_node(stem(forest[k].children), rest)
            &&& visible(forest, base, o, segs, summary) <==> {
                &&& lists_children(o, joined(here), forest[k].children.len())
                &&& visible(forest[k].children, here, o, rest, summary)
            }
        }),
{
    let node = forest[k];
    let here = base.push(node.segment);
    let segs = seq![node.segment] + rest;
    assert(base + segs =~= here + rest);
    assert(segs.drop_first() =~= rest);
    lemma_first_step(forest, k, segs);
    assert(find_node(node, rest) == find_node(stem(node.children), rest));
    let first = segs.take(1);
    assert(first =~= seq![node.segment]);
    lemma_first_step(forest, k, first);
    assert(first.drop_first().len() == 0);
    assert(base + first =~= here);
    assert(children_at(forest, first) == node.children.len());
    assert forall|j: int| 0 < j < rest.len() implies {
        &&& base + segs.take(j + 1) == here + #[trigger] rest.take(j)
        &&& children_at(forest, segs.take(j + 1)) == children_at(node.children, rest.take(j))
    } by {
        let far = segs.take(j + 1);
        assert(far =~= seq![node.segment] + rest.take(j));
        assert(base + far =~= here + rest.take(j));
        assert(far.drop_first() =~= rest.take(j));
        lemma_first_step(forest, k, far);
        assert(find_node(node, rest.take(j)) == find_node(stem(node.children), rest.take(j)));
    }
    if listed_above(forest, base, o, segs) {
        assert(lists_children(o, joined(base + segs.take(1)), children_at(forest, segs.take(1))));
        assert forall|j: int| 0 < j < rest.len() implies lists_children(
            o,
            joined(here + #[trigger] rest.take(j)),
            children_at(node.children, rest.take(j)),
        ) by {
            assert(lists_children(
                o,
                joined(base + segs.take(j + 1)),
                children_at(forest, segs.take(j + 1)),
            ));
        }
    }
    if lists_children(o, joined(here), node.children.len()) && listed_above(
        node.children,
        here,
        o,
        rest,
    ) {
        assert forall|j: int| 0 < j < segs.len() implies lists_children(
            o,
            joined(base + #[trigger] segs.take(j)),
            children_at(forest, segs.take(j)),
        ) by {
            if j > 1 {
                assert(lists_children(
                    o,
                    joined(here + rest.take(j - 1)),
                    children_at(node.children, rest.take(j - 1)),
                ));
                assert(base + segs.take(j - 1 + 1) == here + rest.take(j - 1));
            }
        }
    }
}

proof fn lemma_row_is_visible(
    forest: Seq<NodeModel>,
    base: Seq<Seq<char>>,
    o: FlattenModel,
    depth: nat,
    matched: bool,
    i: int,
) -> (segs: Seq<Seq<char>>)
    requires
        forest_wf(forest),
        clean_all(base),
        o.filter.len() == 0,
        0 <= i < forest_rows(forest, joined(base), o, depth, matched).len(),
    ensures
        shows(forest, base, o, segs, forest_rows(forest, joined(base), o, depth, matched)[i]),
    decreases forest,
{
    let m = forest.len() as int;
    assert(forest.take(m) =~= forest);
    let from = lemma_row_from(forest, base, o, depth, matched, m, i);
    let k = from.0;
    let node = forest[k];
    let here = base.push(node.segment);
    let path = joined(here);
    assert(count(node) > 0);
    lemma_joined_push(base, node.segment);
    let own = seq![node.segment];
    assert(base + own =~= here);
    lemma_first_step(forest, k, own);
    assert(own.drop_first().len() == 0);
    assert(children_at(forest, own) == node.children.len());
    assert(listed_above(forest, base, o, own));
    if from.1 == 0 || o.folds(path, node.children.len()) {
        own
    } else {
        let below = forest_rows(node.children, path, o, depth + 1, true);
        assert(sibling_rows(forest, base, o, depth, matched, k)[from.1] == below[from.1 - 1]);
        let rest = lemma_row_is_visible(node.children, here, o, depth + 1, true, from.1 - 1);
        let row = below[from.1 - 1];
        lemma_visible_above(forest, base, o, k, rest, row.kind is FoldSummary);
        own + rest
    }
}

proof fn lemma_visible_has_row(
    forest: Seq<NodeModel>,
    base: Seq<Seq<char>>,
    o: FlattenModel,
    depth: nat,
    matched: bool,
    segs: Seq<Seq<char>>,
    summary: bool,
) -> (i: int)
    requires
        forest_wf(forest),
        clean_all(base),
        o.filter.len() == 0,
        visible(forest, base, o, segs, summary),
    ensures
        ({
            let rows = forest_rows(forest, joined(base), o, depth, matched);
            &&& 0 <= i < rows.len()
            &&& rows[i].path == joined(base + segs)
            &&& (rows[i].kind is FoldSummary) == summary
        }),
    decreases forest,
{
    let m = forest.len() as int;
    assert(forest.take(m) =~= forest);
    let k = choose|k: int| named(forest, segs[0], k);
    assert(named(forest, segs[0], k));
    let node = forest[k];
    let here = base.push(node.segment);
    let path = joined(here);
    assert(count(node) > 0);
    lemma_joined_push(base, node.segment);
    lemma_first_step(forest, k, segs);
    let rest = segs.drop_first();
    assert(segs =~= seq![node.segment] + rest);
    if rest.len() == 0 {
        assert(base + segs =~= here);
        let j: int = if summary {
            1
        } else {
            0
        };
        lemma_row_into(forest, base, o, depth, matched, m, k, j)
    } else {
        lemma_visible_above(forest, base, o, k, rest, summary);
        lemma_found(stem(node.children), rest);
        assert(node.children.len() > 0);
        let below = forest_rows(node.children, path, o, depth + 1, true);
        let i = lemma_visible_has_row(node.children, here, o, depth + 1, true, rest, summary);
        assert(sibling_rows(forest, base, o, depth, matched, k)[i + 1] == below[i]);
        lemma_row_into(forest, base, o, depth, matched, m, k, i + 1)
    }
}

/// Whether the rows hold one of the path: of its node, or the summary of its children.
pub open spec fn has_row_of(rows: Seq<RowModel>, path: Seq<char>, summary: bool) -> bool {
    exists|i: int|
        0 <= i < rows.len() && (#[trigger] rows[i]).path == path && (rows[i].kind is FoldSummary)
            == summary
}

/// While nothing is filtered, a node has a row exactly when every branch above it is
/// open and lists its children: it has no more of them than the threshold, or the user
/// asked for all. An open branch that has more, at any depth, has a summary instead.
pub proof fn law_what_is_open_and_not_folded_is_listed(
    t: TreeModel,
    o: FlattenModel,
    segs: Seq<Seq<char>>,
)
    requires
        t.wf(),
        o.filter.len() == 0,
        segs.len() > 0,
        find_node(stem(t.forest), segs) is Some,
    ensures
        ({
            let path = joined(segs);
            let above = forall|j: int|
                0 < j < segs.len() ==> {
                    &&& o.expanded.contains(joined(#[trigger] segs.take(j)))
                    &&& find_node(stem(t.forest), segs.take(j))->0.children.len()
                        <= o.fold_threshold || o.unfolded.contains(joined(segs.take(j)))
                };
            &&& has_row_of(rows_of(t, o), path, false) <==> above
            &&& has_row_of(rows_of(t, o), path, true) <==> {
                &&& above
                &&& o.expanded.contains(path)
                &&& !o.unfolded.contains(path)
                &&& find_node(stem(t.forest), segs)->0.children.len() > o.fold_threshold
            }
        }),
{
    let none = Seq::<Seq<char>>::empty();
    let path = joined(segs);
    let rows = rows_of(t, o);
    assert(joined(none) =~= Seq::<char>::empty());
    assert(none + segs =~= segs);
    assert forall|j: int| 0 < j < segs.len() implies none + #[trigger] segs.take(j)
        == segs.take(j) by {
        assert(none + segs.take(j) =~= segs.take(j));
    }
    let above = forall|j: int|
        0 < j < segs.len() ==> {
            &&& o.expanded.contains(joined(#[trigger] segs.take(j)))
            &&& find_node(stem(t.forest), segs.take(j))->0.children.len() <= o.fold_threshold
                || o.unfolded.contains(joined(segs.take(j)))
        };
    assert(above <==> listed_above(t.forest, none, o, segs)) by {
        if above {
            assert forall|j: int| 0 < j < segs.len() implies lists_children(
                o,
                joined(none + #[trigger] segs.take(j)),
                children_at(t.forest, segs.take(j)),
            ) by {}
        }
        if listed_above(t.forest, none, o, segs) {
            assert forall|j: int| 0 < j < segs.len() implies {
                &&& o.expanded.contains(joined(#[trigger] segs.take(j)))
                &&& find_node(stem(t.forest), segs.take(j))->0.children.len() <= o.fold_threshold
                    || o.unfolded.contains(joined(segs.take(j)))
            } by {
                assert(lists_children(
                    o,
                    joined(none + segs.take(j)),
                    children_at(t.forest, segs.take(j)),
                ));
            }
        }
    }
    lemma_found(stem(t.forest), segs);
    lemma_segments_joined(segs);
    assert forall|summary: bool| #[trigger] has_row_of(rows, path, summary) <==> visible(
        t.forest,
        none,
        o,
        segs,
        summary,
    ) by {
        if has_row_of(rows, path, summary) {
            let i = choose|i: int|
                0 <= i < rows.len() && (#[trigger] rows[i]).path == path && (
                rows[i].kind is FoldSummary) == summary;
            let found = lemma_row_is_visible(t.forest, none, o, 0, false, i);
            lemma_found(stem(t.forest), found);
            lemma_segments_joined(found);
            assert(none + found =~= found);
        }
        if visible(t.forest, none, o, segs, summary) {
            let i = lemma_visible_has_row(t.forest, none, o, 0, false, segs, summary);
            assert(rows[i].path == path);
        }
    }
    assert(has_row_of(rows, path, false) <==> visible(t.forest, none, o, segs, false));
    assert(has_row_of(rows, path, true) <==> visible(t.forest, none, o, segs, true));
}

/// Whether the rows are those of the nodes below which everything is open and listed, and
/// the summaries of the open branches that have too many children.
pub open spec fn lists_what_is_open(rows: Seq<RowModel>, t: TreeModel, o: FlattenModel) -> bool {
    forall|segs: Seq<Seq<char>>|
        segs.len() > 0 && (#[trigger] find_node(stem(t.forest), segs)) is Some ==> {
            let path = joined(segs);
            let above = forall|j: int|
                0 < j < segs.len() ==> {
                    &&& o.expanded.contains(joined(#[trigger] segs.take(j)))
                    &&& find_node(stem(t.forest), segs.take(j))->0.children.len()
                        <= o.fold_threshold || o.unfolded.contains(joined(segs.take(j)))
                };
            &&& has_row_of(rows, path, false) <==> above
            &&& has_row_of(rows, path, true) <==> {
                &&& above
                &&& o.expanded.contains(path)
                &&& !o.unfolded.contains(path)
                &&& find_node(stem(t.forest), segs)->0.children.len() > o.fold_threshold
            }
        }
}

/// What [`law_what_is_open_and_not_folded_is_listed`] says holds of every node.
pub proof fn law_the_rows_list_what_is_open(t: TreeModel, o: FlattenModel)
    requires
        t.wf(),
        o.filter.len() == 0,
    ensures
        lists_what_is_open(rows_of(t, o), t, o),
{
    let rows = rows_of(t, o);
    assert forall|segs: Seq<Seq<char>>|
        segs.len() > 0 && (#[trigger] find_node(stem(t.forest), segs)) is Some implies {
        let path = joined(segs);
        let above = forall|j: int|
            0 < j < segs.len() ==> {
                &&& o.expanded.contains(joined(#[trigger] segs.take(j)))
                &&& find_node(stem(t.forest), segs.take(j))->0.children.len() <= o.fold_threshold
                    || o.unfolded.contains(joined(segs.take(j)))
            };
        &&& has_row_of(rows, path, false) <==> above
        &&& has_row_of(rows, path, true) <==> {
            &&& above
            &&& o.expanded.contains(path)
            &&& !o.unfolded.contains(path)
            &&& find_node(stem(t.forest), segs)->0.children.len() > o.fold_threshold
        }
    } by {
        law_what_is_open_and_not_folded_is_listed(t, o, segs);
    }
}

/// While nothing is filtered, every row is that of a node or stands for the children of
/// one: a branch says whether the user opened it, a summary how many it hides.
pub proof fn law_rows_without_a_filter_are_of_nodes(t: TreeModel, o: FlattenModel, i: int)
    requires
        t.wf(),
        o.filter.len() == 0,
        0 <= i < rows_of(t, o).len(),
    ensures
        ({
            let row = rows_of(t, o)[i];
            let node = find_node(stem(t.forest), segments(row.path));
            &&& segments(row.path).len() > 0
            &&& row.path == joined(segments(row.path))
            &&& node is Some
            &&& match row.kind {
                RowKind::FoldSummary { hidden } => hidden == node->0.children.len() as usize,
                RowKind::Branch { expanded } => expanded == o.expanded.contains(row.path)
                    && node->0.children.len() > 0,
                RowKind::Leaf => node->0.children.len() == 0,
            }
        }),
{
    let none = Seq::<Seq<char>>::empty();
    assert(joined(none) =~= Seq::<char>::empty());
    let segs = lemma_row_is_visible(t.forest, none, o, 0, false, i);
    assert(none + segs =~= segs);
    lemma_found(stem(t.forest), segs);
    lemma_segments_joined(segs);
}

} // verus!
