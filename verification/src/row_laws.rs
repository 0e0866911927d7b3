//! What the visible rows of the key tree are, in terms of the keys recorded in it.
use vstd::prelude::*;

use crate::keyed::ascending;
use crate::key_laws::{at_or_below, branch_at, count_at, on_one_line, strictly_below};
use crate::text::{joined, lowercased, segments, text_lt};
use crate::text_laws::{law_a_text_occurs_where_it_is_a_part, part_of};
use crate::tree::{
    clean, count, find_node, forest_rows, forest_wf, lemma_cardinality, named, node_rows,
    sibling_segments, stem, FlattenModel, NodeModel, RowKind, RowModel, TreeModel,
};
use crate::tree_paths::{
    clean_all, lemma_first_step, lemma_found, lemma_found_below, lemma_joined_push,
    lemma_segments_joined,
};

verus! {

/// The visible rows of a tree.
pub open spec fn rows_of(t: TreeModel, o: FlattenModel) -> Seq<RowModel> {
    forest_rows(t.forest, Seq::empty(), o, 0, false)
}

/// The rows that a sibling contributes.
pub open spec fn sibling_rows(
    forest: Seq<NodeModel>,
    base: Seq<Seq<char>>,
    o: FlattenModel,
    depth: nat,
    matched: bool,
    k: int,
) -> Seq<RowModel> {
    node_rows(forest[k], joined(base.push(forest[k].segment)), o, depth, matched)
}

/// Which sibling a row comes from, and where it stands among its rows.
pub(crate) proof fn lemma_row_from(
    forest: Seq<NodeModel>,
    base: Seq<Seq<char>>,
    o: FlattenModel,
    depth: nat,
    matched: bool,
    m: int,
    i: int,
) -> (at: (int, int))
    requires
        forest_wf(forest),
        clean_all(base),
        0 <= m <= forest.len(),
        0 <= i < forest_rows(forest.take(m), joined(base), o, depth, matched).len(),
    ensures
        0 <= at.0 < m,
        0 <= at.1 < sibling_rows(forest, base, o, depth, matched, at.0).len(),
        forest_rows(forest.take(m), joined(base), o, depth, matched)[i] == sibling_rows(
            forest,
            base,
            o,
            depth,
            matched,
            at.0,
        )[at.1],
    decreases m,
{
    assert(forest.take(m).drop_last() =~= forest.take(m - 1));
    assert(count(forest[m - 1]) > 0);
    lemma_joined_push(base, forest[m - 1].segment);
    let before = forest_rows(forest.take(m - 1), joined(base), o, depth, matched);
    if i < before.len() {
        lemma_row_from(forest, base, o, depth, matched, m - 1, i)
    } else {
        (m - 1, i - before.len())
    }
}

/// Where a row of a sibling stands among all rows.
pub(crate) proof fn lemma_row_into(
    forest: Seq<NodeModel>,
    base: Seq<Seq<char>>,
    o: FlattenModel,
    depth: nat,
    matched: bool,
    m: int,
    k: int,
    j: int,
) -> (i: int)
    requires
        forest_wf(forest),
        clean_all(base),
        0 <= k < m <= forest.len(),
        0 <= j < sibling_rows(forest, base, o, depth, matched, k).len(),
    ensures
        0 <= i < forest_rows(forest.take(m), joined(base), o, depth, matched).len(),
        forest_rows(forest.take(m), joined(base), o, depth, matched)[i] == sibling_rows(
            forest,
            base,
            o,
            depth,
            matched,
            k,
        )[j],
    decreases m,
{
    assert(forest.take(m).drop_last() =~= forest.take(m - 1));
    assert(count(forest[m - 1]) > 0);
    lemma_joined_push(base, forest[m - 1].segment);
    let before = forest_rows(forest.take(m - 1), joined(base), o, depth, matched);
    if k < m - 1 {
        lemma_row_into(forest, base, o, depth, matched, m - 1, k, j)
    } else {
        before.len() + j
    }
}

// ---------------------------------------------------------------------------
// What a row says
// ---------------------------------------------------------------------------

/// Whether a row says of its node what the tree has there.
spec fn sits(
    forest: Seq<NodeModel>,
    base: Seq<Seq<char>>,
    o: FlattenModel,
    depth: nat,
    row: RowModel,
) -> bool {
    let segs = segments(row.path);
    let rel = segs.skip(base.len() as int);
    &&& row.path == joined(segs)
    &&& strictly_below(segs, base)
    &&& match find_node(stem(forest), rel) {
        Some(n) => {
            &&& row.key_count == count(n)
            &&& match row.kind {
                RowKind::FoldSummary { hidden } => {
                    &&& row.depth == depth + rel.len()
                    &&& n.children.len() > 0
                    &&& o.folds(row.path, n.children.len())
                },
                RowKind::Branch { expanded } => {
                    &&& row.depth == depth + rel.len() - 1
                    &&& row.segment == segs.last()
                    &&& n.children.len() > 0
                    &&& expanded == o.opens(row.path)
                },
                RowKind::Leaf => {
                    &&& row.depth == depth + rel.len() - 1
                    &&& row.segment == segs.last()
                    &&& n.children.len() == 0
                },
            }
        },
        None => false,
    }
}

proof fn lemma_sits_above(
    forest: Seq<NodeModel>,
    base: Seq<Seq<char>>,
    o: FlattenModel,
    depth: nat,
    k: int,
    row: RowModel,
)
    requires
        forest_wf(forest),
        0 <= k < forest.len(),
        sits(forest[k].children, base.push(forest[k].segment), o, depth + 1, row),
    ensures
        sits(forest, base, o, depth, row),
        segments(row.path)[base.len() as int] == forest[k].segment,
        segments(row.path).len() > base.len() + 1,
{
    let node = forest[k];
    let segs = segments(row.path);
    let n = base.len() as int;
    let here = base.push(node.segment);
    assert(segs.take(n + 1) == here);
    assert(segs[n] == segs.take(n + 1)[n]);
    assert(segs.take(n) =~= segs.take(n + 1).take(n));
    assert(here.take(n) =~= base);
    lemma_first_step(forest, k, segs.skip(n));
    assert(segs.skip(n).drop_first() =~= segs.skip(n + 1));
    assert(find_node(stem(node.children), segs.skip(n + 1)) == find_node(node, segs.skip(n + 1)));
}

proof fn lemma_sibling_sits(
    forest: Seq<NodeModel>,
    base: Seq<Seq<char>>,
    o: FlattenModel,
    depth: nat,
    matched: bool,
    k: int,
    i: int,
)
    requires
        forest_wf(forest),
        clean_all(base),
        0 <= k < forest.len(),
        0 <= i < sibling_rows(forest, base, o, depth, matched, k).len(),
    ensures
        ({
            let row = sibling_rows(forest, base, o, depth, matched, k)[i];
            &&& sits(forest, base, o, depth, row)
            &&& segments(row.path)[base.len() as int] == forest[k].segment
            &&& i == 0 ==> row.path == joined(base.push(forest[k].segment))
                && !(row.kind is FoldSummary)
            &&& i > 0 && !(row.kind is FoldSummary) ==> segments(row.path).len() > base.len() + 1
        }),
    decreases forest, 0int,
{
    let node = forest[k];
    let n = base.len() as int;
    let here = base.push(node.segment);
    let path = joined(here);
    let all = sibling_rows(forest, base, o, depth, matched, k);
    let row = all[i];
    assert(count(node) > 0);
    lemma_joined_push(base, node.segment);
    lemma_segments_joined(here);
    assert(here.take(n) =~= base);
    assert(here.skip(n) =~= seq![node.segment]);
    lemma_first_step(forest, k, here.skip(n));
    assert(here.skip(n).drop_first().len() == 0);
    let inner = matched || o.accepts(path);
    if i == 0 {
        assert(row.path == path);
    } else if o.folds(path, node.children.len()) {
        assert(row.path == path);
    } else {
        let below = forest_rows(node.children, path, o, depth + 1, inner);
        assert(row == below[i - 1]);
        lemma_rows_sit(node.children, here, o, depth + 1, inner, i - 1);
        lemma_sits_above(forest, base, o, depth, k, row);
    }
}

proof fn lemma_rows_sit(
    forest: Seq<NodeModel>,
    base: Seq<Seq<char>>,
    o: FlattenModel,
    depth: nat,
    matched: bool,
    i: int,
)
    requires
        forest_wf(forest),
        clean_all(base),
        0 <= i < forest_rows(forest, joined(base), o, depth, matched).len(),
    ensures
        sits(forest, base, o, depth, forest_rows(forest, joined(base), o, depth, matched)[i]),
    decreases forest, 1int,
{
    let m = forest.len() as int;
    assert(forest.take(m) =~= forest);
    let at = lemma_row_from(forest, base, o, depth, matched, m, i);
    lemma_sibling_sits(forest, base, o, depth, matched, at.0, at.1);
}

/// A row says what the tree answers for its path: how deep it stands, its own segment,
/// how many keys lie at or below it, and whether it leads on. A leaf is a key. A summary
/// stands for the children of the branch it names.
pub proof fn law_rows_say_what_the_tree_answers(t: TreeModel, o: FlattenModel, i: int)
    requires
        t.wf(),
        0 <= i < rows_of(t, o).len(),
    ensures
        ({
            let row = rows_of(t, o)[i];
            let segs = segments(row.path);
            &&& row.path == joined(segs)
            &&& segs.len() > 0
            &&& t.at(row.path) is Some
            &&& row.key_count == count_at(t, row.path)
            &&& match row.kind {
                RowKind::Branch { expanded } => branch_at(t, row.path) && expanded == o.opens(
                    row.path,
                ) && row.depth + 1 == segs.len() && row.segment == segs.last(),
                RowKind::Leaf => !branch_at(t, row.path) && t.keys().contains(segs) && row.depth + 1
                    == segs.len() && row.segment == segs.last(),
                RowKind::FoldSummary { hidden } => branch_at(t, row.path) && row.depth
                    == segs.len(),
            }
        }),
{
    let none = Seq::<Seq<char>>::empty();
    let row = rows_of(t, o)[i];
    let segs = segments(row.path);
    assert(joined(none) =~= Seq::<char>::empty());
    lemma_rows_sit(t.forest, none, o, 0, false, i);
    assert(segs.skip(0) =~= segs);
    let node = find_node(stem(t.forest), segs)->0;
    lemma_found(stem(t.forest), segs);
    lemma_cardinality(node);
    if row.kind is Leaf {
        assert(crate::tree::count_all(node.children) == 0);
        assert(node.is_key);
    }
}

// ---------------------------------------------------------------------------
// The order of the rows
// ---------------------------------------------------------------------------

/// Whether one path stands before another when a tree is walked down, siblings in
/// ascending order: a node before what is below it.
pub open spec fn walked_before(a: Seq<Seq<char>>, b: Seq<Seq<char>>) -> bool
    decreases a.len(),
{
    if b.len() == 0 {
        false
    } else if a.len() == 0 {
        true
    } else if a[0] == b[0] {
        walked_before(a.drop_first(), b.drop_first())
    } else {
        text_lt(a[0], b[0])
    }
}

proof fn lemma_walked_down(a: Seq<Seq<char>>, b: Seq<Seq<char>>)
    requires
        strictly_below(b, a),
    ensures
        walked_before(a, b),
    decreases a.len(),
{
    if a.len() > 0 {
        let n = a.len() as int;
        assert(b.take(n)[0] == b[0]);
        assert(b.drop_first().take(n - 1) =~= b.take(n).drop_first());
        lemma_walked_down(a.drop_first(), b.drop_first());
    }
}

proof fn lemma_walked_across(a: Seq<Seq<char>>, b: Seq<Seq<char>>, n: int)
    requires
        0 <= n < a.len(),
        n < b.len(),
        a.take(n) == b.take(n),
        a[n] != b[n],
        text_lt(a[n], b[n]),
    ensures
        walked_before(a, b),
    decreases n,
{
    if n > 0 {
        assert(a.take(n)[0] == a[0]);
        assert(b.take(n)[0] == b[0]);
        assert(a.drop_first().take(n - 1) =~= a.take(n).drop_first());
        assert(b.drop_first().take(n - 1) =~= b.take(n).drop_first());
        lemma_walked_across(a.drop_first(), b.drop_first(), n - 1);
    }
}

proof fn lemma_sibling_ascends(
    forest: Seq<NodeModel>,
    base: Seq<Seq<char>>,
    o: FlattenModel,
    depth: nat,
    matched: bool,
    k: int,
    i: int,
    j: int,
)
    requires
        forest_wf(forest),
        clean_all(base),
        0 <= k < forest.len(),
        0 <= i < j < sibling_rows(forest, base, o, depth, matched, k).len(),
        !(sibling_rows(forest, base, o, depth, matched, k)[i].kind is FoldSummary),
        !(sibling_rows(forest, base, o, depth, matched, k)[j].kind is FoldSummary),
    ensures
        walked_before(
            segments(sibling_rows(forest, base, o, depth, matched, k)[i].path),
            segments(sibling_rows(forest, base, o, depth, matched, k)[j].path),
        ),
    decreases forest, 0int, 0int,
{
    let node = forest[k];
    let here = base.push(node.segment);
    let path = joined(here);
    let n = base.len() as int;
    let all = sibling_rows(forest, base, o, depth, matched, k);
    let inner = matched || o.accepts(path);
    assert(count(node) > 0);
    lemma_joined_push(base, node.segment);
    lemma_segments_joined(here);
    lemma_sibling_sits(forest, base, o, depth, matched, k, i);
    lemma_sibling_sits(forest, base, o, depth, matched, k, j);
    let b = segments(all[j].path);
    if o.folds(path, node.children.len()) {
        // Then the only row below is the summary.
        assert(all[j].kind is FoldSummary);
    } else {
        let below = forest_rows(node.children, path, o, depth + 1, inner);
        assert(all[j] == below[j - 1]);
        if i == 0 {
            assert(b.take(n + 1) =~= b.take(n).push(b[n]));
            lemma_walked_down(here, b);
        } else {
            assert(all[i] == below[i - 1]);
            let m = node.children.len() as int;
            assert(node.children.take(m) =~= node.children);
            lemma_rows_ascend(node.children, here, o, depth + 1, inner, m, i - 1, j - 1);
        }
    }
}

proof fn lemma_rows_ascend(
    forest: Seq<NodeModel>,
    base: Seq<Seq<char>>,
    o: FlattenModel,
    depth: nat,
    matched: bool,
    m: int,
    i: int,
    j: int,
)
    requires
        forest_wf(forest),
        clean_all(base),
        0 <= m <= forest.len(),
        0 <= i < j < forest_rows(forest.take(m), joined(base), o, depth, matched).len(),
        !(forest_rows(forest.take(m), joined(base), o, depth, matched)[i].kind is FoldSummary),
        !(forest_rows(forest.take(m), joined(base), o, depth, matched)[j].kind is FoldSummary),
    ensures
        walked_before(
            segments(forest_rows(forest.take(m), joined(base), o, depth, matched)[i].path),
            segments(forest_rows(forest.take(m), joined(base), o, depth, matched)[j].path),
        ),
    decreases forest, 1int, m,
{
    let k = m - 1;
    let n = base.len() as int;
    assert(forest.take(m).drop_last() =~= forest.take(m - 1));
    assert(count(forest[k]) > 0);
    lemma_joined_push(base, forest[k].segment);
    let before = forest_rows(forest.take(k), joined(base), o, depth, matched);
    let own = sibling_rows(forest, base, o, depth, matched, k);
    let all = forest_rows(forest.take(m), joined(base), o, depth, matched);
    assert(all == before + own);
    if j < before.len() {
        assert(all[i] == before[i] && all[j] == before[j]);
        lemma_rows_ascend(forest, base, o, depth, matched, k, i, j);
    } else if i >= before.len() {
        let d = before.len() as int;
        assert(all[i] == own[i - d] && all[j] == own[j - d]);
        lemma_sibling_ascends(forest, base, o, depth, matched, k, i - d, j - d);
    } else {
        let at = lemma_row_from(forest, base, o, depth, matched, k, i);
        lemma_sibling_sits(forest, base, o, depth, matched, at.0, at.1);
        lemma_sibling_sits(forest, base, o, depth, matched, k, j - before.len());
        let names = sibling_segments(forest);
        assert(ascending(names));
        assert(text_lt(names[at.0], names[k]));
        crate::keyed::lemma_ascending_distinct(names);
        assert(names[at.0] != names[k]);
        lemma_walked_across(segments(all[i].path), segments(all[j].path), n);
    }
}

/// The rows stand in the order in which the tree is walked down, siblings ascending by
/// segment. So no path has two rows of its own.
pub proof fn law_rows_stand_in_walking_order(t: TreeModel, o: FlattenModel, i: int, j: int)
    requires
        t.wf(),
        0 <= i < j < rows_of(t, o).len(),
        !(rows_of(t, o)[i].kind is FoldSummary),
        !(rows_of(t, o)[j].kind is FoldSummary),
    ensures
        walked_before(segments(rows_of(t, o)[i].path), segments(rows_of(t, o)[j].path)),
{
    let none = Seq::<Seq<char>>::empty();
    let m = t.forest.len() as int;
    assert(joined(none) =~= Seq::<char>::empty());
    assert(t.forest.take(m) =~= t.forest);
    lemma_rows_ascend(t.forest, none, o, 0, false, m, i, j);
}

// ---------------------------------------------------------------------------
// What a filter shows
// ---------------------------------------------------------------------------

/// Whether the path of a node or of one below it satisfies the filter.
spec fn hit(node: NodeModel, base: Seq<Seq<char>>, o: FlattenModel) -> bool
    decreases node,
{
    o.accepts(joined(base)) || exists|i: int|
        0 <= i < node.children.len() && hit(
            #[trigger] node.children[i],
            base.push(node.children[i].segment),
            o,
        )
}

proof fn lemma_hit_shows(
    forest: Seq<NodeModel>,
    base: Seq<Seq<char>>,
    o: FlattenModel,
    depth: nat,
    matched: bool,
    k: int,
)
    requires
        forest_wf(forest),
        clean_all(base),
        o.filtering(),
        0 <= k < forest.len(),
    ensures
        sibling_rows(forest, base, o, depth, matched, k).len() > 0 <==> matched || hit(
            forest[k],
            base.push(forest[k].segment),
            o,
        ),
    decreases forest,
{
    let node = forest[k];
    let here = base.push(node.segment);
    let path = joined(here);
    let inner = matched || o.accepts(path);
    assert(count(node) > 0);
    lemma_joined_push(base, node.segment);
    if !inner && node.children.len() > 0 {
        let m = node.children.len() as int;
        let below = forest_rows(node.children, path, o, depth + 1, inner);
        assert(node.children.take(m) =~= node.children);
        if below.len() > 0 {
            let at = lemma_row_from(node.children, here, o, depth + 1, inner, m, 0);
            lemma_hit_shows(node.children, here, o, depth + 1, inner, at.0);
            assert(hit(node.children[at.0], here.push(node.children[at.0].segment), o));
        }
        if hit(node, here, o) {
            let c = choose|i: int|
                0 <= i < node.children.len() && hit(
                    #[trigger] node.children[i],
                    here.push(node.children[i].segment),
                    o,
                );
            lemma_hit_shows(node.children, here, o, depth + 1, inner, c);
            let i = lemma_row_into(node.children, here, o, depth + 1, inner, m, c, 0);
            assert(below.len() > 0);
        }
    }
}

/// Whether a node that the filter accepts is found on from here.
spec fn accepted_from(
    node: NodeModel,
    base: Seq<Seq<char>>,
    o: FlattenModel,
    more: Seq<Seq<char>>,
) -> bool {
    find_node(node, more) is Some && o.accepts(joined(base + more))
}

proof fn lemma_hit_from(node: NodeModel, base: Seq<Seq<char>>, o: FlattenModel, more: Seq<Seq<char>>)
    requires
        forest_wf(node.children),
        accepted_from(node, base, o, more),
    ensures
        hit(node, base, o),
    decreases more.len(),
{
    if more.len() == 0 {
        assert(base + more =~= base);
    } else {
        let i = choose|i: int| named(node.children, more[0], i);
        let child = node.children[i];
        assert(count(child) > 0);
        let rest = more.drop_first();
        assert(base + more =~= base.push(child.segment) + rest);
        lemma_first_step(node.children, i, more);
        assert(find_node(stem(node.children), more) == find_node(node, more));
        lemma_hit_from(child, base.push(child.segment), o, rest);
        assert(hit(node.children[i], base.push(node.children[i].segment), o));
    }
}

proof fn lemma_hit_leads(node: NodeModel, base: Seq<Seq<char>>, o: FlattenModel) -> (more: Seq<
    Seq<char>,
>)
    requires
        forest_wf(node.children),
        hit(node, base, o),
    ensures
        accepted_from(node, base, o, more),
    decreases node,
{
    if o.accepts(joined(base)) {
        let none = Seq::<Seq<char>>::empty();
        assert(base + none =~= base);
        none
    } else {
        let i = choose|i: int|
            0 <= i < node.children.len() && hit(
                #[trigger] node.children[i],
                base.push(node.children[i].segment),
                o,
            );
        let child = node.children[i];
        assert(count(child) > 0);
        let rest = lemma_hit_leads(child, base.push(child.segment), o);
        let more = seq![child.segment] + rest;
        assert(more.drop_first() =~= rest);
        assert(base + more =~= base.push(child.segment) + rest);
        lemma_first_step(node.children, i, more);
        assert(find_node(stem(node.children), more) == find_node(node, more));
        more
    }
}

/// Whether a path has a row of its own.
pub open spec fn has_row(rows: Seq<RowModel>, path: Seq<char>) -> bool {
    exists|i: int|
        0 <= i < rows.len() && (#[trigger] rows[i]).path == path && !(rows[i].kind is FoldSummary)
}

/// Whether the filter accepts a node on the way to where the segments lead.
spec fn accepted_above(
    base: Seq<Seq<char>>,
    o: FlattenModel,
    segs: Seq<Seq<char>>,
) -> bool {
    exists|m: int|
        0 < m < segs.len() && o.accepts(joined(base + #[trigger] segs.take(m)))
}

proof fn lemma_row_shown(
    forest: Seq<NodeModel>,
    base: Seq<Seq<char>>,
    o: FlattenModel,
    depth: nat,
    matched: bool,
    segs: Seq<Seq<char>>,
)
    requires
        forest_wf(forest),
        clean_all(base),
        o.filtering(),
        segs.len() > 0,
        find_node(stem(forest), segs) is Some,
    ensures
        has_row(forest_rows(forest, joined(base), o, depth, matched), joined(base + segs)) <==> {
            ||| matched
            ||| accepted_above(base, o, segs)
            ||| hit(find_node(stem(forest), segs)->0, base + segs, o)
        },
    decreases segs.len(),
{
    let k = choose|k: int| named(forest, segs[0], k);
    let node = forest[k];
    let n = base.len() as int;
    let m = forest.len() as int;
    let here = base.push(node.segment);
    let path = joined(here);
    let inner = matched || o.accepts(path);
    let target = joined(base + segs);
    let rest = segs.drop_first();
    let all = forest_rows(forest, joined(base), o, depth, matched);
    let own = sibling_rows(forest, base, o, depth, matched, k);
    let below = forest_rows(node.children, path, o, depth + 1, inner);
    assert(forest.take(m) =~= forest);
    assert(count(node) > 0);
    lemma_joined_push(base, node.segment);
    lemma_first_step(forest, k, segs);
    lemma_found(stem(forest), segs);
    lemma_hit_shows(forest, base, o, depth, matched, k);
    assert(base + segs =~= here + rest);
    assert(clean_all(base + segs)) by {
        assert forall|i: int| 0 <= i < (base + segs).len() implies clean(
            #[trigger] (base + segs)[i],
        ) by {
            if i < n {
                assert(clean(base[i]));
            } else {
                assert(clean(segs[i - n]));
            }
        }
    }
    lemma_segments_joined(base + segs);
    lemma_segments_joined(here);
    // The row stands among those of the sibling it goes through.
    assert(has_row(all, target) <==> has_row(own, target)) by {
        if has_row(all, target) {
            let i = choose|i: int|
                0 <= i < all.len() && (#[trigger] all[i]).path == target && !(
                all[i].kind is FoldSummary);
            let at = lemma_row_from(forest, base, o, depth, matched, m, i);
            lemma_sibling_sits(forest, base, o, depth, matched, at.0, at.1);
            assert((base + segs)[n] == segs[0]);
            crate::keyed::lemma_ascending_distinct(sibling_segments(forest));
            assert(sibling_segments(forest)[at.0] == sibling_segments(forest)[k]);
            assert(own[at.1].path == target);
        }
        if has_row(own, target) {
            let j = choose|j: int|
                0 <= j < own.len() && (#[trigger] own[j]).path == target && !(
                own[j].kind is FoldSummary);
            let i = lemma_row_into(forest, base, o, depth, matched, m, k, j);
            assert(all[i].path == target);
        }
    }
    assert(node.children.len() == 0 ==> below.len() == 0);
    if segs.len() == 1 {
        assert(rest =~= Seq::empty());
        assert(here + rest =~= here);
        if own.len() > 0 {
            lemma_sibling_sits(forest, base, o, depth, matched, k, 0);
            assert(own[0].path == target);
        }
    } else {
        assert(find_node(stem(node.children), rest) == find_node(node, rest));
        lemma_row_shown(node.children, here, o, depth + 1, inner, rest);
        assert(has_row(own, target) <==> has_row(below, target)) by {
            if has_row(own, target) {
                let j = choose|j: int|
                    0 <= j < own.len() && (#[trigger] own[j]).path == target && !(
                    own[j].kind is FoldSummary);
                assert(own[0].path == path);
                assert(path != target) by {
                    assert(segments(path) == here && segments(target) == base + segs);
                    assert(here.len() != (base + segs).len());
                }
                assert(own[j] == below[j - 1]);
            }
            if has_row(below, target) {
                let j = choose|j: int|
                    0 <= j < below.len() && (#[trigger] below[j]).path == target && !(
                    below[j].kind is FoldSummary);
                assert(own[j + 1] == below[j]);
            }
        }
        // What is accepted on the way is accepted here or further down.
        if accepted_above(base, o, segs) {
            let w = choose|w: int|
                0 < w < segs.len() && o.accepts(joined(base + #[trigger] segs.take(w)));
            if w == 1 {
                assert(base + segs.take(1) =~= here);
            } else {
                assert(base + segs.take(w) =~= here + rest.take(w - 1));
                assert(accepted_above(here, o, rest));
            }
        }
        if accepted_above(here, o, rest) {
            let w = choose|w: int|
                0 < w < rest.len() && o.accepts(joined(here + #[trigger] rest.take(w)));
            assert(base + segs.take(w + 1) =~= here + rest.take(w));
            assert(accepted_above(base, o, segs));
        }
        if o.accepts(path) {
            assert(base + segs.take(1) =~= here);
            assert(accepted_above(base, o, segs));
        }
    }
}

/// Whether the filter accepts the path of a node that lies above, at or below where the
/// segments lead.
pub open spec fn accepted_on_line(
    t: TreeModel,
    o: FlattenModel,
    segs: Seq<Seq<char>>,
    node: Seq<Seq<char>>,
) -> bool {
    &&& node.len() > 0
    &&& find_node(stem(t.forest), node) is Some
    &&& on_one_line(node, segs)
    &&& o.accepts(joined(node))
}

/// Under a filter a path has a row exactly when it is, in normal form, the path of a
/// node, and the filter accepts a node above, at or below it.
pub proof fn law_a_filter_shows_what_leads_to_a_match(
    t: TreeModel,
    o: FlattenModel,
    path: Seq<char>,
)
    requires
        t.wf(),
        o.filtering(),
    ensures
        has_row(rows_of(t, o), path) <==> {
            let segs = segments(path);
            &&& path == joined(segs)
            &&& segs.len() > 0
            &&& t.at(path) is Some
            &&& exists|node: Seq<Seq<char>>| #[trigger] accepted_on_line(t, o, segs, node)
        },
{
    let none = Seq::<Seq<char>>::empty();
    let segs = segments(path);
    let rows = rows_of(t, o);
    assert(joined(none) =~= Seq::<char>::empty());
    if has_row(rows, path) {
        let i = choose|i: int|
            0 <= i < rows.len() && (#[trigger] rows[i]).path == path && !(
            rows[i].kind is FoldSummary);
        lemma_rows_sit(t.forest, none, o, 0, false, i);
        assert(segs.skip(0) =~= segs);
    }
    if path == joined(segs) && segs.len() > 0 && t.at(path) is Some {
        let found = t.at(path)->0;
        lemma_row_shown(t.forest, none, o, 0, false, segs);
        assert(none + segs =~= segs);
        lemma_found(stem(t.forest), segs);
        if accepted_above(none, o, segs) {
            let w = choose|w: int|
                0 < w < segs.len() && o.accepts(joined(none + #[trigger] segs.take(w)));
            let above = segs.take(w);
            assert(none + above =~= above);
            lemma_found_below(stem(t.forest), above, segs.skip(w));
            assert(above + segs.skip(w) =~= segs);
            assert(at_or_below(segs, above));
            assert(accepted_on_line(t, o, segs, above));
        }
        if hit(found, segs, o) {
            let more = lemma_hit_leads(found, segs, o);
            lemma_found_below(stem(t.forest), segs, more);
            assert((segs + more).take(segs.len() as int) =~= segs);
            assert(at_or_below(segs + more, segs));
            assert(accepted_on_line(t, o, segs, segs + more));
        }
        if exists|node: Seq<Seq<char>>| #[trigger] accepted_on_line(t, o, segs, node) {
            let node = choose|node: Seq<Seq<char>>| #[trigger]
                accepted_on_line(t, o, segs, node);
            if at_or_below(node, segs) {
                let more = node.skip(segs.len() as int);
                assert(segs + more =~= node);
                lemma_found_below(stem(t.forest), segs, more);
                lemma_hit_from(found, segs, o, more);
            } else {
                let w = node.len() as int;
                assert(segs.take(w) == node);
                assert(w < segs.len()) by {
                    if w == segs.len() {
                        assert(segs.take(w) =~= segs);
                        assert(node.take(segs.len() as int) =~= segs);
                    }
                }
                assert(none + segs.take(w) =~= node);
                assert(accepted_above(none, o, segs));
            }
        }
    }
}

/// Under a filter nothing is folded away, and every branch draws open.
pub proof fn law_a_filter_opens_every_branch(t: TreeModel, o: FlattenModel, i: int)
    requires
        t.wf(),
        o.filtering(),
        0 <= i < rows_of(t, o).len(),
    ensures
        !(rows_of(t, o)[i].kind is FoldSummary),
        rows_of(t, o)[i].kind is Branch ==> rows_of(t, o)[i].kind == (RowKind::Branch {
            expanded: true,
        }),
{
    let none = Seq::<Seq<char>>::empty();
    assert(joined(none) =~= Seq::<char>::empty());
    lemma_rows_sit(t.forest, none, o, 0, false, i);
}

/// Whether a filter is a part of a path, whatever the case.
pub open spec fn filter_in(filter: Seq<char>, path: Seq<char>) -> bool {
    part_of(lowercased(filter), lowercased(path))
}

/// Whether a node stands on one line with the path, and its own path holds the filter.
pub open spec fn matches_on_line(
    t: TreeModel,
    filter: Seq<char>,
    segs: Seq<Seq<char>>,
    node: Seq<Seq<char>>,
) -> bool {
    &&& node.len() > 0
    &&& find_node(stem(t.forest), node) is Some
    &&& on_one_line(node, segs)
    &&& filter_in(filter, joined(node))
}

/// With a filter typed, the rows are those of the nodes on one line with a node whose path
/// holds it, whatever the case: what leads to a match, the match, and all below it. What
/// is open or folded does not matter, every branch draws open and nothing is summed up.
pub proof fn law_a_filter_finds_whatever_holds_it(t: TreeModel, o: FlattenModel, path: Seq<char>)
    requires
        t.wf(),
        o.filter.len() > 0,
    ensures
        has_row(rows_of(t, o), path) <==> {
            let segs = segments(path);
            &&& path == joined(segs)
            &&& segs.len() > 0
            &&& t.at(path) is Some
            &&& exists|node: Seq<Seq<char>>| #[trigger] matches_on_line(t, o.filter, segs, node)
        },
        forall|i: int|
            0 <= i < rows_of(t, o).len() ==> match (#[trigger] rows_of(t, o)[i]).kind {
                RowKind::Branch { expanded } => expanded,
                RowKind::Leaf => true,
                RowKind::FoldSummary { .. } => false,
            },
{
    let segs = segments(path);
    law_a_filter_shows_what_leads_to_a_match(t, o, path);
    assert forall|node: Seq<Seq<char>>|
        accepted_on_line(t, o, segs, node) == #[trigger] matches_on_line(t, o.filter, segs, node) by {
        law_a_text_occurs_where_it_is_a_part(lowercased(o.filter), lowercased(joined(node)));
    }
    if exists|node: Seq<Seq<char>>| #[trigger] accepted_on_line(t, o, segs, node) {
        let node = choose|node: Seq<Seq<char>>| #[trigger] accepted_on_line(t, o, segs, node);
        assert(matches_on_line(t, o.filter, segs, node));
    }
    assert forall|i: int| 0 <= i < rows_of(t, o).len() implies match (
    #[trigger] rows_of(t, o)[i]).kind {
        RowKind::Branch { expanded } => expanded,
        RowKind::Leaf => true,
        RowKind::FoldSummary { .. } => false,
    } by {
        law_a_filter_opens_every_branch(t, o, i);
    }
}

} // verus!
