//! How the paths of the key tree relate to the segments that lead to its nodes.
use vstd::prelude::*;

use crate::text::{
    joined, lemma_one_piece, lemma_pieces_joined, non_empty, pieces, segments,
};
use crate::tree::{
    branches, child_of, clean, find_node, forest_wf, lemma_child_unique, lemma_segments_clean,
    named, path_under, stem, NodeModel,
};

verus! {

/// Whether these are segments as splitting a key gives them.
pub open spec fn clean_all(segs: Seq<Seq<char>>) -> bool {
    forall|i: int| 0 <= i < segs.len() ==> clean(#[trigger] segs[i])
}

proof fn lemma_joined_length(segs: Seq<Seq<char>>)
    requires
        clean_all(segs),
        segs.len() > 0,
    ensures
        joined(segs).len() > 0,
{
    assert(clean(segs[segs.len() - 1]));
}

/// The path of a node is that of its parent, and its own segment.
pub proof fn lemma_joined_push(segs: Seq<Seq<char>>, segment: Seq<char>)
    requires
        clean_all(segs),
        clean(segment),
    ensures
        joined(segs.push(segment)) == path_under(joined(segs), segment),
        clean_all(segs.push(segment)),
{
    assert(segs.push(segment).drop_last() =~= segs);
    if segs.len() > 0 {
        lemma_joined_length(segs);
    }
    assert forall|i: int| 0 <= i < segs.push(segment).len() implies clean(
        #[trigger] segs.push(segment)[i],
    ) by {
        if i < segs.len() {
            assert(clean(segs[i]));
        }
    }
}

proof fn lemma_non_empty_push(v: Seq<Seq<char>>, segment: Seq<char>)
    requires
        segment.len() > 0,
    ensures
        non_empty(v + seq![segment]) == non_empty(v).push(segment),
{
    assert((v + seq![segment]).drop_last() =~= v);
}

/// One step down a path adds its segment.
pub proof fn lemma_segments_under(parent: Seq<char>, segment: Seq<char>)
    requires
        clean(segment),
    ensures
        segments(path_under(parent, segment)) == segments(parent).push(segment),
{
    lemma_one_piece(segment);
    if parent.len() == 0 {
        let none = Seq::<Seq<char>>::empty();
        lemma_non_empty_push(none, segment);
        assert(none + seq![segment] =~= seq![segment]);
        lemma_one_piece(parent);
        assert(pieces(parent, '/').drop_last() =~= none);
        assert(segments(parent) =~= none);
    } else {
        lemma_pieces_joined(parent, segment);
        assert(path_under(parent, segment) =~= parent + seq!['/'] + segment);
        lemma_non_empty_push(pieces(parent, '/'), segment);
    }
}

/// Segments are read back from the path that they are joined to.
pub proof fn lemma_segments_joined(segs: Seq<Seq<char>>)
    requires
        clean_all(segs),
    ensures
        segments(joined(segs)) == segs,
    decreases segs.len(),
{
    if segs.len() == 0 {
        lemma_one_piece(joined(segs));
        assert(pieces(joined(segs), '/').drop_last() =~= Seq::<Seq<char>>::empty());
        reveal_with_fuel(non_empty, 2);
        assert(segments(joined(segs)) =~= segs);
    } else {
        let init = segs.drop_last();
        assert(clean(segs[segs.len() - 1]));
        assert(clean_all(init)) by {
            assert forall|i: int| 0 <= i < init.len() implies clean(#[trigger] init[i]) by {
                assert(clean(segs[i]));
            }
        }
        lemma_segments_joined(init);
        lemma_joined_push(init, segs.last());
        lemma_segments_under(joined(init), segs.last());
        assert(init.push(segs.last()) =~= segs);
    }
}

/// The segments of a key are clean, and it is no different from its normal form.
pub proof fn lemma_normal_form(key: Seq<char>)
    ensures
        clean_all(segments(key)),
        segments(joined(segments(key))) == segments(key),
{
    lemma_segments_clean(key);
    lemma_segments_joined(segments(key));
}

/// What leads to a node is clean, the node is as well-formed as the tree, and below the
/// root something is stored in it.
pub proof fn lemma_found(node: NodeModel, segs: Seq<Seq<char>>)
    requires
        forest_wf(node.children),
        find_node(node, segs) is Some,
    ensures
        clean_all(segs),
        forest_wf(find_node(node, segs)->0.children),
        segs.len() > 0 ==> crate::tree::count(find_node(node, segs)->0) > 0,
        segs.len() > 0 ==> find_node(node, segs)->0.segment == segs.last(),
    decreases segs.len(),
{
    if segs.len() > 0 {
        let i = choose|i: int| named(node.children, segs[0], i);
        let child = node.children[i];
        assert(crate::tree::count(child) > 0);
        lemma_found(child, segs.drop_first());
        assert forall|k: int| 0 <= k < segs.len() implies clean(#[trigger] segs[k]) by {
            if k > 0 {
                assert(clean(segs.drop_first()[k - 1]));
            }
        }
        if segs.len() == 1 {
            assert(segs.drop_first().len() == 0);
        } else {
            assert(segs.drop_first().last() == segs.last());
        }
    }
}

/// What leads on from a node leads on from where it was found.
pub proof fn lemma_found_below(node: NodeModel, segs: Seq<Seq<char>>, more: Seq<Seq<char>>)
    ensures
        find_node(node, segs + more) == (match find_node(node, segs) {
            Some(n) => find_node(n, more),
            None => None,
        }),
    decreases segs.len(),
{
    if segs.len() == 0 {
        assert(segs + more =~= more);
    } else {
        assert((segs + more).drop_first() =~= segs.drop_first() + more);
        assert((segs + more)[0] == segs[0]);
        if let Some(child) = child_of(node.children, segs[0]) {
            lemma_found_below(child, segs.drop_first(), more);
        }
    }
}

/// The first step from siblings goes to the one with its segment.
pub proof fn lemma_first_step(forest: Seq<NodeModel>, i: int, segs: Seq<Seq<char>>)
    requires
        forest_wf(forest),
        0 <= i < forest.len(),
        segs.len() > 0,
        segs[0] == forest[i].segment,
    ensures
        find_node(stem(forest), segs) == find_node(forest[i], segs.drop_first()),
{
    lemma_child_unique(forest, i);
}

// ---------------------------------------------------------------------------
// Lists of paths
// ---------------------------------------------------------------------------

/// The paths of the nodes that are asked for, each before those below it.
pub open spec fn paths_where(
    forest: Seq<NodeModel>,
    parent: Seq<char>,
    keep: spec_fn(NodeModel) -> bool,
) -> Seq<Seq<char>>
    decreases forest,
{
    if forest.len() == 0 {
        Seq::empty()
    } else {
        let path = path_under(parent, forest.last().segment);
        paths_where(forest.drop_last(), parent, keep) + (if keep(forest.last()) {
            seq![path]
        } else {
            Seq::empty()
        }) + paths_where(forest.last().children, path, keep)
    }
}

/// Whether a path is that of a node below `base` that is asked for.
pub open spec fn is_path_below(
    forest: Seq<NodeModel>,
    base: Seq<Seq<char>>,
    keep: spec_fn(NodeModel) -> bool,
    path: Seq<char>,
) -> bool {
    let segs = segments(path);
    &&& path == joined(segs)
    &&& segs.len() > base.len()
    &&& segs.take(base.len() as int) == base
    &&& match find_node(stem(forest), segs.skip(base.len() as int)) {
        Some(n) => keep(n),
        None => false,
    }
}

/// Whether the path goes through one of the first `k` siblings.
spec fn goes_through(forest: Seq<NodeModel>, at: int, k: int, path: Seq<char>) -> bool {
    exists|j: int| 0 <= j < k && #[trigger] named(forest, segments(path)[at], j)
}

proof fn lemma_paths_taken(
    forest: Seq<NodeModel>,
    base: Seq<Seq<char>>,
    keep: spec_fn(NodeModel) -> bool,
    k: int,
    path: Seq<char>,
)
    requires
        forest_wf(forest),
        clean_all(base),
        0 <= k <= forest.len(),
    ensures
        paths_where(forest.take(k), joined(base), keep).contains(path) <==> is_path_below(
            forest,
            base,
            keep,
            path,
        ) && goes_through(forest, base.len() as int, k, path),
    decreases forest, k,
{
    let parent = joined(base);
    let all = paths_where(forest.take(k), parent, keep);
    let segs = segments(path);
    let n = base.len() as int;
    if k > 0 {
        let node = forest[k - 1];
        assert(forest.take(k).drop_last() =~= forest.take(k - 1));
        assert(forest.take(k).last() == node);
        assert(crate::tree::count(node) > 0);
        lemma_joined_push(base, node.segment);
        let here = base.push(node.segment);
        let before = paths_where(forest.take(k - 1), parent, keep);
        let own = if keep(node) {
            seq![joined(here)]
        } else {
            Seq::<Seq<char>>::empty()
        };
        let below = paths_where(node.children, joined(here), keep);
        assert(all == before + own + below);
        lemma_paths_taken(forest, base, keep, k - 1, path);
        lemma_paths_taken(node.children, here, keep, node.children.len() as int, path);
        assert(node.children.take(node.children.len() as int) =~= node.children);
        lemma_segments_joined(here);
        // What the list holds, piece by piece.
        assert(all.contains(path) <==> before.contains(path) || own.contains(path)
            || below.contains(path)) by {
            if before.contains(path) {
                assert(all[before.index_of(path)] == path);
            }
            if own.contains(path) {
                assert(all[before.len() + own.index_of(path)] == path);
            }
            if below.contains(path) {
                assert(all[before.len() + own.len() + below.index_of(path)] == path);
            }
            if all.contains(path) {
                let i = all.index_of(path);
                if i < before.len() {
                    assert(before[i] == path);
                } else if i < before.len() + own.len() {
                    assert(own[i - before.len()] == path);
                } else {
                    assert(below[i - before.len() - own.len()] == path);
                }
            }
        }
        if own.contains(path) {
            assert(path == joined(here));
            assert(segs == here);
            assert(here.take(n) =~= base);
            assert(here.skip(n) =~= seq![node.segment]);
            lemma_first_step(forest, k - 1, here.skip(n));
            assert(here.skip(n).drop_first().len() == 0);
            assert(named(forest, segs[n], k - 1));
        }
        if below.contains(path) {
            assert(segs.take(n + 1) == here);
            assert(segs[n] == segs.take(n + 1)[n]);
            assert(segs.take(n) =~= segs.take(n + 1).take(n));
            assert(here.take(n) =~= base);
            lemma_first_step(forest, k - 1, segs.skip(n));
            assert(segs.skip(n).drop_first() =~= segs.skip(n + 1));
            assert(named(forest, segs[n], k - 1));
        }
        if is_path_below(forest, base, keep, path) && goes_through(forest, n, k, path) {
            let j = choose|j: int| 0 <= j < k && #[trigger] named(forest, segs[n], j);
            if j < k - 1 {
                assert(goes_through(forest, n, k - 1, path));
            } else {
                assert(segs.take(n + 1) =~= segs.take(n).push(segs[n]));
                assert(segs.skip(n)[0] == segs[n]);
                lemma_first_step(forest, k - 1, segs.skip(n));
                assert(segs.skip(n).drop_first() =~= segs.skip(n + 1));
                if segs.len() == n + 1 {
                    assert(segs =~= here);
                    assert(segs.skip(n + 1).len() == 0);
                    assert(own[0] == path);
                } else {
                    let rest = segs.skip(n + 1);
                    assert(rest.len() > 0);
                    assert(find_node(stem(node.children), rest) == find_node(node, rest));
                    assert(is_path_below(node.children, here, keep, path));
                    lemma_goes_somewhere(node.children, rest);
                    let c = choose|c: int| named(node.children, rest[0], c);
                    assert(rest[0] == segs[n + 1]);
                    assert(named(node.children, segs[n + 1], c));
                    assert(goes_through(
                        node.children,
                        n + 1,
                        node.children.len() as int,
                        path,
                    ));
                }
            }
        }
        if goes_through(forest, n, k - 1, path) {
            let j = choose|j: int| 0 <= j < k - 1 && #[trigger] named(forest, segs[n], j);
            assert(0 <= j < k && named(forest, segs[n], j));
        }
    }
}

proof fn lemma_goes_somewhere(forest: Seq<NodeModel>, segs: Seq<Seq<char>>)
    requires
        segs.len() > 0,
        find_node(stem(forest), segs) is Some,
    ensures
        exists|i: int| named(forest, segs[0], i),
{
}

/// A list of paths holds exactly the paths of the nodes asked for.
pub proof fn lemma_paths_where(
    forest: Seq<NodeModel>,
    base: Seq<Seq<char>>,
    keep: spec_fn(NodeModel) -> bool,
    path: Seq<char>,
)
    requires
        forest_wf(forest),
        clean_all(base),
    ensures
        paths_where(forest, joined(base), keep).contains(path) <==> is_path_below(
            forest,
            base,
            keep,
            path,
        ),
{
    let k = forest.len() as int;
    let n = base.len() as int;
    assert(forest.take(k) =~= forest);
    lemma_paths_taken(forest, base, keep, k, path);
    if is_path_below(forest, base, keep, path) {
        let rest = segments(path).skip(n);
        lemma_goes_somewhere(forest, rest);
        let i = choose|i: int| named(forest, rest[0], i);
        assert(rest[0] == segments(path)[n]);
        assert(named(forest, segments(path)[n], i));
        assert(goes_through(forest, n, k, path));
    }
}

/// The branches are the nodes with children.
pub proof fn lemma_branches(forest: Seq<NodeModel>, parent: Seq<char>)
    ensures
        branches(forest, parent) == paths_where(
            forest,
            parent,
            |n: NodeModel| n.children.len() > 0,
        ),
    decreases forest,
{
    let keep = |n: NodeModel| n.children.len() > 0;
    if forest.len() > 0 {
        let path = path_under(parent, forest.last().segment);
        lemma_branches(forest.drop_last(), parent);
        lemma_branches(forest.last().children, path);
        assert(branches(forest, parent) =~= paths_where(forest, parent, keep));
    }
}

} // verus!
