//! The hierarchical index over observed key expressions.
//!
//! A flat, sorted key list stops being usable somewhere around fifty keys, and a
//! namespace like `agv/{id}/pose` reaches that with twenty vehicles. This splits
//! each key on `/` and keeps the segments as a tree, so a whole fleet collapses
//! to one row you expand.
//!
//! Purely structural: no terminal, no network, no clock.
use vstd::prelude::*;

use crate::fold_laws::{law_the_rows_list_what_is_open, lists_what_is_open};
use crate::keyed::{ascending, lemma_ascending_distinct, lemma_splits_insert, splits, KeySet};
use crate::text::{
    contains_text, lemma_text_lt_total, lemma_text_lt_transitive, less, lemma_pieces_non_empty,
    lowercase, lowercased, non_empty, occurs, pieces, same, segments, split_key, text_lt, texts,
};
use crate::tree_paths::paths_where;

verus! {

// ---------------------------------------------------------------------------
// The model
// ---------------------------------------------------------------------------

/// One node of the hierarchy: its own segment, whether a message has arrived on
/// exactly its path, and the nodes below it.
pub struct NodeModel {
    pub segment: Seq<char>,
    pub is_key: bool,
    pub children: Seq<NodeModel>,
}

/// The segments of a list of siblings.
pub open spec fn sibling_segments(forest: Seq<NodeModel>) -> Seq<Seq<char>> {
    Seq::new(forest.len(), |i: int| forest[i].segment)
}

/// Keys at or below a node, counting itself when it is one.
pub open spec fn count(node: NodeModel) -> nat
    decreases node,
{
    (if node.is_key {
        1nat
    } else {
        0nat
    }) + count_all(node.children)
}

/// Keys at or below a list of siblings.
pub open spec fn count_all(forest: Seq<NodeModel>) -> nat
    decreases forest,
{
    if forest.len() == 0 {
        0
    } else {
        count_all(forest.drop_last()) + count(forest.last())
    }
}

/// A segment as splitting a key gives it: not empty, and without a separator.
pub open spec fn clean(segment: Seq<char>) -> bool {
    segment.len() > 0 && !segment.contains('/')
}

/// Siblings are in ascending order of segment, and every one of them leads to a
/// key.
pub open spec fn forest_wf(forest: Seq<NodeModel>) -> bool
    decreases forest,
{
    &&& ascending(sibling_segments(forest))
    &&& forall|i: int|
        0 <= i < forest.len() ==> {
            &&& count(#[trigger] forest[i]) > 0
            &&& clean(forest[i].segment)
            &&& forest_wf(forest[i].children)
        }
}

/// No path down from the node has `d` or more steps.
pub open spec fn shallow(node: NodeModel, d: nat) -> bool
    decreases node,
{
    d > 0 && forall|i: int|
        0 <= i < node.children.len() ==> shallow(#[trigger] node.children[i], (d - 1) as nat)
}

/// Whether the sibling at `i` has the given segment.
pub open spec fn named(forest: Seq<NodeModel>, segment: Seq<char>, i: int) -> bool {
    0 <= i < forest.len() && forest[i].segment == segment
}

/// The sibling with the given segment.
pub open spec fn child_of(forest: Seq<NodeModel>, segment: Seq<char>) -> Option<NodeModel> {
    if exists|i: int| named(forest, segment, i) {
        Some(
            forest[choose|i: int| named(forest, segment, i)],
        )
    } else {
        None
    }
}

/// The node that the segments lead to.
pub open spec fn find_node(node: NodeModel, segs: Seq<Seq<char>>) -> Option<NodeModel>
    decreases segs.len(),
{
    if segs.len() == 0 {
        Some(node)
    } else {
        match child_of(node.children, segs[0]) {
            Some(child) => find_node(child, segs.drop_first()),
            None => None,
        }
    }
}

/// Whether the segments lead to a key.
pub open spec fn has_key(node: NodeModel, segs: Seq<Seq<char>>) -> bool {
    match find_node(node, segs) {
        Some(n) => n.is_key,
        None => false,
    }
}

/// The keys at or below a node, as segments relative to it.
pub open spec fn keys_under(node: NodeModel) -> Set<Seq<Seq<char>>> {
    Set::new(|segs: Seq<Seq<char>>| has_key(node, segs))
}

/// A node that only holds others.
pub open spec fn stem(children: Seq<NodeModel>) -> NodeModel {
    NodeModel { segment: Seq::empty(), is_key: false, children }
}

/// The full path of a node, from its parent's path and its own segment.
pub open spec fn path_under(parent: Seq<char>, segment: Seq<char>) -> Seq<char> {
    if parent.len() == 0 {
        segment
    } else {
        parent.push('/') + segment
    }
}

// ---------------------------------------------------------------------------
// Facts about the model
// ---------------------------------------------------------------------------

proof fn lemma_pieces_split(s: Seq<char>)
    ensures
        forall|i: int| 0 <= i < pieces(s, '/').len() ==> !(#[trigger] pieces(s, '/')[i]).contains('/'),
    decreases s.len(),
{
    if s.len() > 0 {
        lemma_pieces_split(s.drop_last());
        lemma_pieces_non_empty(s.drop_last(), '/');
        let before = pieces(s.drop_last(), '/');
        let out = pieces(s, '/');
        assert forall|i: int| 0 <= i < out.len() implies !(#[trigger] out[i]).contains('/') by {
            if i < before.len() - 1 {
                assert(out[i] == before[i]);
            } else if i == before.len() - 1 {
                assert(!before[i].contains('/'));
                if s.last() != '/' {
                    assert(out[i] == before[i].push(s.last()));
                    if out[i].contains('/') {
                        let k = choose|k: int| 0 <= k < out[i].len() && out[i][k] == '/';
                        assert(k < before[i].len());
                        assert(before[i][k] == '/');
                        assert(false);
                    }
                }
            }
        }
    } else {
        assert(!Seq::<char>::empty().contains('/'));
    }
}

proof fn lemma_non_empty_clean(v: Seq<Seq<char>>)
    requires
        forall|i: int| 0 <= i < v.len() ==> !(#[trigger] v[i]).contains('/'),
    ensures
        forall|i: int| 0 <= i < non_empty(v).len() ==> clean(#[trigger] non_empty(v)[i]),
    decreases v.len(),
{
    if v.len() > 0 {
        let init = v.drop_last();
        assert forall|i: int| 0 <= i < init.len() implies !(#[trigger] init[i]).contains('/') by {
            assert(!v[i].contains('/'));
        }
        lemma_non_empty_clean(init);
        assert(!v[v.len() - 1].contains('/'));
        assert forall|i: int| 0 <= i < non_empty(v).len() implies clean(#[trigger] non_empty(v)[i]) by {
            if i < non_empty(init).len() {
                assert(non_empty(v)[i] == non_empty(init)[i]);
            }
        }
    }
}

/// The segments of a key are never empty and hold no separator.
pub proof fn lemma_segments_clean(key: Seq<char>)
    ensures
        forall|i: int| 0 <= i < segments(key).len() ==> clean(#[trigger] segments(key)[i]),
{
    lemma_pieces_split(key);
    lemma_non_empty_clean(pieces(key, '/'));
}

/// A sibling is found under its own segment.
pub proof fn lemma_child_unique(forest: Seq<NodeModel>, i: int)
    requires
        ascending(sibling_segments(forest)),
        0 <= i < forest.len(),
    ensures
        child_of(forest, forest[i].segment) == Some(forest[i]),
{
    lemma_ascending_distinct(sibling_segments(forest));
    assert(named(forest, forest[i].segment, i));
    let j = choose|j: int| named(forest, forest[i].segment, j);
    assert(sibling_segments(forest)[j] == sibling_segments(forest)[i]);
}

proof fn lemma_child_absent(forest: Seq<NodeModel>, segment: Seq<char>)
    requires
        !sibling_segments(forest).contains(segment),
    ensures
        child_of(forest, segment) is None,
{
    assert forall|i: int| !named(forest, segment, i) by {
        if named(forest, segment, i) {
            assert(sibling_segments(forest)[i] == segment);
        }
    }
}

proof fn lemma_count_all_update(forest: Seq<NodeModel>, at: int, node: NodeModel)
    requires
        0 <= at < forest.len(),
    ensures
        count_all(forest.update(at, node)) + count(forest[at]) == count_all(forest) + count(node),
    decreases forest.len(),
{
    let out = forest.update(at, node);
    if at == forest.len() - 1 {
        assert(out.drop_last() =~= forest.drop_last());
    } else {
        lemma_count_all_update(forest.drop_last(), at, node);
        assert(out.drop_last() =~= forest.drop_last().update(at, node));
    }
}

proof fn lemma_count_all_insert(forest: Seq<NodeModel>, at: int, node: NodeModel)
    requires
        0 <= at <= forest.len(),
    ensures
        count_all(forest.insert(at, node)) == count_all(forest) + count(node),
    decreases forest.len(),
{
    let out = forest.insert(at, node);
    if at == forest.len() {
        assert(out.drop_last() =~= forest);
    } else {
        lemma_count_all_insert(forest.drop_last(), at, node);
        assert(out.drop_last() =~= forest.drop_last().insert(at, node));
    }
}

proof fn lemma_count_all_remove(forest: Seq<NodeModel>, at: int)
    requires
        0 <= at < forest.len(),
    ensures
        count_all(forest.remove(at)) + count(forest[at]) == count_all(forest),
{
    lemma_count_all_insert(forest.remove(at), at, forest[at]);
    assert(forest.remove(at).insert(at, forest[at]) =~= forest);
}

proof fn lemma_count_all_member(forest: Seq<NodeModel>, i: int)
    requires
        0 <= i < forest.len(),
    ensures
        count(forest[i]) <= count_all(forest),
    decreases forest.len(),
{
    if i < forest.len() - 1 {
        lemma_count_all_member(forest.drop_last(), i);
    }
}

/// A node that counts nothing holds no key.
proof fn lemma_count_zero(node: NodeModel, segs: Seq<Seq<char>>)
    requires
        count(node) == 0,
    ensures
        !has_key(node, segs),
    decreases segs.len(),
{
    if segs.len() > 0 {
        if exists|i: int| named(node.children, segs[0], i) {
            let i = choose|i: int| named(node.children, segs[0], i);
            lemma_count_all_member(node.children, i);
            lemma_count_zero(node.children[i], segs.drop_first());
        }
    }
}

/// In an ordered list of siblings, what is named is found.
proof fn lemma_child_found(forest: Seq<NodeModel>, segment: Seq<char>, i: int)
    requires
        ascending(sibling_segments(forest)),
        named(forest, segment, i),
    ensures
        child_of(forest, segment) == Some(forest[i]),
{
    lemma_child_unique(forest, i);
}

/// Lookup among siblings after one of them was replaced.
proof fn lemma_child_update(forest: Seq<NodeModel>, at: int, node: NodeModel, segment: Seq<char>)
    requires
        ascending(sibling_segments(forest)),
        0 <= at < forest.len(),
        node.segment == forest[at].segment,
    ensures
        ascending(sibling_segments(forest.update(at, node))),
        child_of(forest.update(at, node), segment) == (if segment == node.segment {
            Some(node)
        } else {
            child_of(forest, segment)
        }),
{
    let out = forest.update(at, node);
    assert(sibling_segments(out) =~= sibling_segments(forest));
    if segment == node.segment {
        lemma_child_found(out, segment, at);
    } else if exists|i: int| named(forest, segment, i) {
        let i = choose|i: int| named(forest, segment, i);
        lemma_child_found(forest, segment, i);
        lemma_child_found(out, segment, i);
    } else {
        assert forall|i: int| !named(out, segment, i) by {
            assert(!named(forest, segment, i));
        }
    }
}

/// Lookup among siblings after one was added.
proof fn lemma_child_insert(forest: Seq<NodeModel>, at: int, node: NodeModel, segment: Seq<char>)
    requires
        ascending(sibling_segments(forest)),
        splits(sibling_segments(forest), node.segment, at),
    ensures
        ascending(sibling_segments(forest.insert(at, node))),
        child_of(forest.insert(at, node), segment) == (if segment == node.segment {
            Some(node)
        } else {
            child_of(forest, segment)
        }),
{
    let out = forest.insert(at, node);
    lemma_splits_insert(sibling_segments(forest), node.segment, at);
    assert(sibling_segments(out) =~= sibling_segments(forest).insert(at, node.segment));
    if segment == node.segment {
        lemma_child_found(out, segment, at);
    } else if exists|i: int| named(forest, segment, i) {
        let i = choose|i: int| named(forest, segment, i);
        lemma_child_found(forest, segment, i);
        let j = if i < at {
            i
        } else {
            i + 1
        };
        assert(out[j] == forest[i]);
        lemma_child_found(out, segment, j);
    } else {
        assert forall|i: int| !named(out, segment, i) by {
            if named(out, segment, i) {
                let j = if i < at {
                    i
                } else {
                    i - 1
                };
                assert(i != at);
                assert(named(forest, segment, j));
            }
        }
    }
}

/// Lookup among siblings after one was taken out.
proof fn lemma_child_remove(forest: Seq<NodeModel>, at: int, segment: Seq<char>)
    requires
        ascending(sibling_segments(forest)),
        0 <= at < forest.len(),
    ensures
        ascending(sibling_segments(forest.remove(at))),
        child_of(forest.remove(at), segment) == (if segment == forest[at].segment {
            None
        } else {
            child_of(forest, segment)
        }),
{
    let out = forest.remove(at);
    let keys = sibling_segments(forest);
    lemma_ascending_distinct(keys);
    assert(sibling_segments(out) =~= keys.remove(at));
    assert forall|i: int, j: int|
        0 <= i < j < sibling_segments(out).len() implies text_lt(
        #[trigger] sibling_segments(out)[i],
        #[trigger] sibling_segments(out)[j],
    ) by {
        let p = if i < at {
            i
        } else {
            i + 1
        };
        let q = if j < at {
            j
        } else {
            j + 1
        };
        assert(text_lt(keys[p], keys[q]));
    }
    if segment == forest[at].segment {
        assert forall|i: int| !named(out, segment, i) by {
            if named(out, segment, i) {
                let j = if i < at {
                    i
                } else {
                    i + 1
                };
                assert(keys[j] == keys[at]);
            }
        }
    } else if exists|i: int| named(forest, segment, i) {
        let i = choose|i: int| named(forest, segment, i);
        lemma_child_found(forest, segment, i);
        let j = if i < at {
            i
        } else {
            i - 1
        };
        assert(out[j] == forest[i]);
        lemma_child_found(out, segment, j);
    } else {
        assert forall|i: int| !named(out, segment, i) by {
            if named(out, segment, i) {
                let j = if i < at {
                    i
                } else {
                    i + 1
                };
                assert(named(forest, segment, j));
            }
        }
    }
}

/// How the keys of a node follow from those of the one child that changed.
proof fn lemma_keys_through_child(
    before: NodeModel,
    after: NodeModel,
    child: NodeModel,
    grown: NodeModel,
    segs: Seq<Seq<char>>,
)
    requires
        segs.len() > 0,
        before.is_key == after.is_key,
        child_of(before.children, segs[0]) == Some(child) || (child_of(
            before.children,
            segs[0],
        ) is None && count(child) == 0),
        forall|x: Seq<char>|
            #[trigger] child_of(after.children, x) == (if x == segs[0] {
                Some(grown)
            } else {
                child_of(before.children, x)
            }),
        forall|s: Seq<Seq<char>>|
            #[trigger] has_key(grown, s) == (has_key(child, s) || s == segs.drop_first()),
    ensures
        forall|s: Seq<Seq<char>>| #[trigger]
            has_key(after, s) == (has_key(before, s) || s == segs),
{
    assert forall|s: Seq<Seq<char>>| #[trigger]
        has_key(after, s) == (has_key(before, s) || s == segs) by {
        if s.len() > 0 {
            let x = s[0];
            assert(child_of(after.children, x) == (if x == segs[0] {
                Some(grown)
            } else {
                child_of(before.children, x)
            }));
            if x == segs[0] {
                assert(has_key(after, s) == has_key(grown, s.drop_first()));
                if child_of(before.children, segs[0]) is None {
                    lemma_count_zero(child, s.drop_first());
                }
                assert(s == segs <==> s.drop_first() == segs.drop_first()) by {
                    assert(s =~= seq![s[0]] + s.drop_first());
                    assert(segs =~= seq![segs[0]] + segs.drop_first());
                }
            }
        }
    }
}

// ---------------------------------------------------------------------------
// The executable tree
// ---------------------------------------------------------------------------

/// One node in the key hierarchy.
///
/// `path` is stored rather than rebuilt on demand because it is the identity
/// used by the expansion sets and by selection, and the flatten pass needs it
/// for every visible row on every frame.
#[derive(Debug)]
struct TreeNode {
    /// This node's own segment (`"f1"`). Empty for the root.
    segment: String,
    /// Full key prefix down to and including this node (`"agv/f1"`).
    path: String,
    /// In ascending order of segment.
    children: Vec<TreeNode>,
    /// A message has arrived on exactly this path, so it is a real key and not
    /// just an intermediate segment.
    is_key: bool,
    /// Keys at or below this node, counting itself when `is_key`. Maintained on
    /// insert/remove so a collapsed row can show what it is hiding without a
    /// walk.
    key_count: usize,
}

spec fn models(nodes: Seq<TreeNode>) -> Seq<NodeModel>
    decreases nodes,
{
    Seq::new(
        nodes.len(),
        |i: int|
            if 0 <= i < nodes.len() {
                nodes[i].model()
            } else {
                arbitrary()
            },
    )
}

proof fn lemma_models(nodes: Seq<TreeNode>)
    ensures
        models(nodes).len() == nodes.len(),
        forall|i: int|
            0 <= i < nodes.len() ==> {
                &&& (#[trigger] models(nodes)[i]) == nodes[i].model()
                &&& models(nodes)[i].segment == nodes[i].segment@
                &&& models(nodes)[i].is_key == nodes[i].is_key
                &&& models(nodes)[i].children == models(nodes[i].children@)
            },
{
    reveal_with_fuel(TreeNode::model, 2);
}

impl TreeNode {
    spec fn model(self) -> NodeModel
        decreases self,
    {
        NodeModel {
            segment: self.segment@,
            is_key: self.is_key,
            children: models(self.children@),
        }
    }

    /// The stored counts and the paths below agree with the model.
    spec fn counted(self) -> bool
        decreases self,
    {
        &&& self.key_count == count(self.model())
        &&& forall|i: int|
            0 <= i < self.children@.len() ==> {
                &&& (#[trigger] self.children@[i]).counted()
                &&& self.children@[i].path@ == path_under(self.path@, self.children@[i].segment@)
            }
    }

    spec fn wf(self) -> bool {
        self.counted() && forest_wf(self.model().children)
    }

    /// A copy of the node and everything below it.
    fn duplicate(&self) -> (node: Self)
        ensures
            node.segment@ == self.segment@,
            node.path@ == self.path@,
            node.is_key == self.is_key,
            node.key_count == self.key_count,
            node.model() == self.model(),
            self.counted() ==> node.counted(),
        decreases self,
    {
        let mut children: Vec<TreeNode> = Vec::new();
        let mut i: usize = 0;
        while i < self.children.len()
            invariant
                i <= self.children@.len(),
                children@.len() == i,
                forall|k: int|
                    0 <= k < i ==> {
                        &&& (#[trigger] children@[k]).model() == self.children@[k].model()
                        &&& children@[k].segment@ == self.children@[k].segment@
                        &&& children@[k].path@ == self.children@[k].path@
                        &&& self.children@[k].counted() ==> children@[k].counted()
                    },
            decreases self.children@.len() - i,
        {
            assert(decreases_to!(self => self.children@[i as int]));
            children.push(self.children[i].duplicate());
            i += 1;
        }
        let node = TreeNode {
            segment: self.segment.clone(),
            path: self.path.clone(),
            children,
            is_key: self.is_key,
            key_count: self.key_count,
        };
        proof {
            lemma_models(node.children@);
            lemma_models(self.children@);
            assert(models(node.children@) =~= models(self.children@));
        }
        node
    }

    fn new(segment: &str, path: &str) -> (node: Self)
        ensures
            node.segment@ == segment@,
            node.path@ == path@,
            node.children@.len() == 0,
            !node.is_key,
            node.key_count == 0,
            node.model() == (NodeModel {
                segment: segment@,
                is_key: false,
                children: Seq::empty(),
            }),
            node.wf(),
    {
        let node = TreeNode {
            segment: segment.to_owned(),
            path: path.to_owned(),
            children: Vec::new(),
            is_key: false,
            key_count: 0,
        };
        assert(models(node.children@) =~= Seq::empty());
        node
    }

    /// Where the child with this segment stands, or would have to be inserted.
    fn position(&self, segment: &str) -> (r: (bool, usize))
        requires
            self.wf(),
        ensures
            r.0 ==> r.1 < self.children@.len() && self.children@[r.1 as int].segment@ == segment@,
            r.0 ==> child_of(self.model().children, segment@) == Some(
                self.children@[r.1 as int].model(),
            ),
            !r.0 ==> splits(sibling_segments(self.model().children), segment@, r.1 as int),
            !r.0 ==> child_of(self.model().children, segment@) is None,
    {
        let ghost forest = self.model().children;
        let ghost keys = sibling_segments(forest);
        proof {
            lemma_models(self.children@);
            assert(forall|i: int| 0 <= i < keys.len() ==> #[trigger] keys[i] == forest[i].segment);
        }
        let mut lo: usize = 0;
        let mut hi: usize = self.children.len();
        while lo < hi
            invariant
                forest == self.model().children,
                keys == sibling_segments(forest),
                ascending(keys),
                lo <= hi <= keys.len(),
                keys.len() == self.children.len(),
                forall|i: int|
                    0 <= i < keys.len() ==> {
                        &&& #[trigger] keys[i] == self.children@[i].segment@
                        &&& forest[i] == self.children@[i].model()
                        &&& forest[i].segment == keys[i]
                    },
                forall|i: int| 0 <= i < lo ==> text_lt(#[trigger] keys[i], segment@),
                forall|i: int| hi <= i < keys.len() ==> text_lt(segment@, #[trigger] keys[i]),
            decreases hi - lo,
        {
            let mid: usize = lo + (hi - lo) / 2;
            let probe = self.children[mid].segment.as_str();
            assert(probe@ == keys[mid as int]);
            if less(probe, segment) {
                proof {
                    assert forall|i: int| 0 <= i < mid + 1 implies text_lt(
                        #[trigger] keys[i],
                        segment@,
                    ) by {
                        if i < mid {
                            lemma_text_lt_transitive(keys[i], keys[mid as int], segment@);
                        }
                    }
                }
                lo = mid + 1;
            } else if same(probe, segment) {
                proof {
                    lemma_child_unique(forest, mid as int);
                }
                return (true, mid);
            } else {
                proof {
                    lemma_text_lt_total(keys[mid as int], segment@);
                    assert forall|i: int| mid <= i < keys.len() implies text_lt(
                        segment@,
                        #[trigger] keys[i],
                    ) by {
                        if i > mid {
                            lemma_text_lt_transitive(segment@, keys[mid as int], keys[i]);
                        }
                    }
                }
                hi = mid;
            }
        }
        proof {
            lemma_splits_insert(keys, segment@, lo as int);
            lemma_child_absent(forest, segment@);
        }
        (false, lo)
    }

    /// Marks the node that `segs[from..]` leads to as a key, adding what is
    /// missing on the way.
    fn insert_into(node: &mut TreeNode, segs: &Vec<String>, from: usize)
        requires
            old(node).wf(),
            from <= segs@.len(),
            forall|i: int| 0 <= i < segs@.len() ==> clean(#[trigger] segs@[i]@),
            !has_key(old(node).model(), texts(segs@).skip(from as int)),
            count(old(node).model()) < usize::MAX,
            shallow(old(node).model(), (usize::MAX + 1 - from) as nat),
        ensures
            final(node).wf(),
            final(node).segment@ == old(node).segment@,
            final(node).path@ == old(node).path@,
            final(node).is_key == (old(node).is_key || from == segs@.len()),
            count(final(node).model()) == count(old(node).model()) + 1,
            forall|s: Seq<Seq<char>>| #[trigger]
                has_key(final(node).model(), s) == (has_key(old(node).model(), s) || s == texts(
                    segs@,
                ).skip(from as int)),
            shallow(final(node).model(), (usize::MAX + 1 - from) as nat),
        decreases segs@.len() - from,
    {
        let ghost before = *node;
        let ghost rest = texts(segs@).skip(from as int);
        if from == segs.len() {
            node.is_key = true;
            node.key_count = node.key_count + 1;
            proof {
                assert(rest.len() == 0);
                assert forall|s: Seq<Seq<char>>| #[trigger]
                    has_key(node.model(), s) == (has_key(before.model(), s) || s == rest) by {
                    if s.len() == 0 {
                        assert(s =~= rest);
                    }
                }
            }
            return;
        }
        let segment = segs[from].as_str();
        let (found, at) = node.position(segment);
        assert(rest[0] == segment@);
        assert(rest.drop_first() =~= texts(segs@).skip(from as int + 1));
        if !found {
            let mut path = node.path.clone();
            if !path.as_str().is_empty() {
                path.push('/');
            }
            path.append(segment);
            let fresh = TreeNode::new(segment, path.as_str());
            node.children.insert(at, fresh);
        }
        let ghost middle = *node;
        let ghost child = node.children@[at as int];
        proof {
            lemma_models(before.children@);
            if found {
                lemma_count_all_member(before.model().children, at as int);
                assert(before.model().children[at as int] == child.model());
            } else {
                assert forall|s: Seq<Seq<char>>| !has_key(child.model(), s) by {
                    lemma_count_zero(child.model(), s);
                }
            }
            assert(has_key(before.model(), rest) == (child_of(
                before.model().children,
                segment@,
            ) is Some && has_key(
                child_of(before.model().children, segment@)->0,
                rest.drop_first(),
            )));
        }
        Self::insert_into(&mut node.children[at], segs, from + 1);
        node.key_count = node.key_count + 1;
        proof {
            let grown = node.children@[at as int];
            if !found {
                assert(count_all(child.model().children) == 0);
                assert(node.children@ =~= before.children@.insert(at as int, grown));
            }
            Self::lemma_child_grown(before, *node, child, grown, at as int, found);
            lemma_keys_through_child(
                before.model(),
                node.model(),
                child.model(),
                grown.model(),
                rest,
            );
            let d = (usize::MAX + 1 - from) as nat;
            lemma_models(before.children@);
            lemma_models(node.children@);
            assert forall|i: int| 0 <= i < node.model().children.len() implies shallow(
                #[trigger] node.model().children[i],
                (d - 1) as nat,
            ) by {
                if i != at {
                    let j = if found || i < at {
                        i
                    } else {
                        i - 1
                    };
                    assert(node.model().children[i] == before.model().children[j]);
                }
            }
        }
    }

    /// The node after one child was replaced, or added where it was missing.
    proof fn lemma_child_grown(
        before: TreeNode,
        after: TreeNode,
        child: TreeNode,
        grown: TreeNode,
        at: int,
        found: bool,
    )
        requires
            before.wf(),
            grown.wf(),
            clean(grown.segment@),
            count(grown.model()) == count(child.model()) + 1,
            grown.path@ == path_under(before.path@, grown.segment@),
            after.segment@ == before.segment@,
            after.path@ == before.path@,
            after.is_key == before.is_key,
            after.key_count == before.key_count + 1,
            found ==> {
                &&& 0 <= at < before.children@.len()
                &&& child == before.children@[at]
                &&& grown.segment@ == child.segment@
                &&& after.children@ == before.children@.update(at, grown)
            },
            !found ==> {
                &&& splits(sibling_segments(before.model().children), grown.segment@, at)
                &&& count(child.model()) == 0
                &&& after.children@ == before.children@.insert(at, grown)
            },
        ensures
            after.wf(),
            count(after.model()) == count(before.model()) + 1,
            forall|x: Seq<char>|
                #[trigger] child_of(after.model().children, x) == (if x == grown.segment@ {
                    Some(grown.model())
                } else {
                    child_of(before.model().children, x)
                }),
    {
        let f0 = before.model().children;
        let f1 = after.model().children;
        lemma_models(before.children@);
        lemma_models(after.children@);
        assert(grown.model().segment == grown.segment@);
        if found {
            assert(f1 =~= f0.update(at, grown.model()));
            lemma_count_all_update(f0, at, grown.model());
            assert forall|x: Seq<char>|
                #[trigger] child_of(f1, x) == (if x == grown.segment@ {
                    Some(grown.model())
                } else {
                    child_of(f0, x)
                }) by {
                lemma_child_update(f0, at, grown.model(), x);
            }
            lemma_child_update(f0, at, grown.model(), grown.segment@);
        } else {
            assert(f1 =~= f0.insert(at, grown.model()));
            lemma_count_all_insert(f0, at, grown.model());
            assert forall|x: Seq<char>|
                #[trigger] child_of(f1, x) == (if x == grown.segment@ {
                    Some(grown.model())
                } else {
                    child_of(f0, x)
                }) by {
                lemma_child_insert(f0, at, grown.model(), x);
            }
            lemma_child_insert(f0, at, grown.model(), grown.segment@);
        }
        assert forall|i: int| 0 <= i < after.children@.len() implies {
            &&& (#[trigger] after.children@[i]).counted()
            &&& after.children@[i].path@ == path_under(after.path@, after.children@[i].segment@)
        } by {
            if i != at {
                let j = if found || i < at {
                    i
                } else {
                    i - 1
                };
                assert(after.children@[i] == before.children@[j]);
            }
        }
        assert forall|i: int| 0 <= i < f1.len() implies {
            &&& count(#[trigger] f1[i]) > 0
            &&& clean(f1[i].segment)
            &&& forest_wf(f1[i].children)
        } by {
            if i != at {
                let j = if found || i < at {
                    i
                } else {
                    i - 1
                };
                assert(f1[i] == f0[j]);
            } else {
                assert(f1[i] == grown.model());
            }
        }
    }

    /// Takes the key that `segs[from..]` leads to out of the node, pruning what
    /// led to nothing else.
    fn remove_inner(node: &mut TreeNode, segs: &Vec<String>, from: usize)
        requires
            old(node).wf(),
            from <= segs@.len(),
            has_key(old(node).model(), texts(segs@).skip(from as int)),
        ensures
            final(node).wf(),
            final(node).segment@ == old(node).segment@,
            final(node).path@ == old(node).path@,
            from < segs@.len() ==> final(node).is_key == old(node).is_key,
            count(final(node).model()) + 1 == count(old(node).model()),
            forall|s: Seq<Seq<char>>| #[trigger]
                has_key(final(node).model(), s) == (has_key(old(node).model(), s) && s != texts(
                    segs@,
                ).skip(from as int)),
            forall|d: nat| shallow(old(node).model(), d) ==> #[trigger] shallow(
                final(node).model(),
                d,
            ),
        decreases segs@.len() - from,
    {
        let ghost before = *node;
        let ghost rest = texts(segs@).skip(from as int);
        if from == segs.len() {
            node.is_key = false;
            node.key_count = node.key_count - 1;
            proof {
                assert forall|s: Seq<Seq<char>>| #[trigger]
                    has_key(node.model(), s) == (has_key(before.model(), s) && s != rest) by {
                    if s.len() == 0 {
                        assert(s =~= rest);
                    }
                }
            }
            return;
        }
        let segment = segs[from].as_str();
        let (found, at) = node.position(segment);
        assert(rest[0] == segment@);
        assert(rest.drop_first() =~= texts(segs@).skip(from as int + 1));
        assert(found);
        let ghost child = node.children@[at as int];
        proof {
            lemma_models(before.children@);
            assert(before.model().children[at as int] == child.model());
            lemma_count_all_member(before.model().children, at as int);
        }
        Self::remove_inner(&mut node.children[at], segs, from + 1);
        let ghost shrunk = node.children@[at as int];
        node.key_count = node.key_count - 1;
        // An interior node that is neither a key nor on the way to one is no
        // longer worth a row.
        let emptied = node.children[at].key_count == 0;
        if emptied {
            let _ = node.children.remove(at);
        }
        proof {
            if emptied {
                assert(node.children@ =~= before.children@.remove(at as int));
            } else {
                assert(node.children@ =~= before.children@.update(at as int, shrunk));
            }
            Self::lemma_child_shrunk(before, *node, child, shrunk, at as int, emptied);
            Self::lemma_keys_without(before.model(), node.model(), child.model(), shrunk.model(), rest);
            lemma_models(node.children@);
            assert forall|d: nat| shallow(before.model(), d) implies #[trigger] shallow(
                node.model(),
                d,
            ) by {
                assert forall|i: int| 0 <= i < node.model().children.len() implies shallow(
                    #[trigger] node.model().children[i],
                    (d - 1) as nat,
                ) by {
                    let j = if emptied && i >= at {
                        i + 1
                    } else {
                        i
                    };
                    assert(shallow(before.model().children[j], (d - 1) as nat));
                }
            }
        }
    }

    proof fn lemma_child_shrunk(
        before: TreeNode,
        after: TreeNode,
        child: TreeNode,
        shrunk: TreeNode,
        at: int,
        emptied: bool,
    )
        requires
            before.wf(),
            shrunk.wf(),
            0 <= at < before.children@.len(),
            child == before.children@[at],
            count(shrunk.model()) + 1 == count(child.model()),
            shrunk.segment@ == child.segment@,
            shrunk.path@ == child.path@,
            after.segment@ == before.segment@,
            after.path@ == before.path@,
            after.is_key == before.is_key,
            after.key_count + 1 == before.key_count,
            emptied == (count(shrunk.model()) == 0),
            emptied ==> after.children@ == before.children@.remove(at),
            !emptied ==> after.children@ == before.children@.update(at, shrunk),
        ensures
            after.wf(),
            count(after.model()) + 1 == count(before.model()),
            forall|x: Seq<char>|
                #[trigger] child_of(after.model().children, x) == (if x == child.segment@ {
                    if emptied {
                        None
                    } else {
                        Some(shrunk.model())
                    }
                } else {
                    child_of(before.model().children, x)
                }),
    {
        let f0 = before.model().children;
        let f1 = after.model().children;
        lemma_models(before.children@);
        lemma_models(after.children@);
        assert(shrunk.model().segment == shrunk.segment@);
        if emptied {
            assert(f1 =~= f0.remove(at));
            lemma_count_all_remove(f0, at);
            assert forall|x: Seq<char>|
                #[trigger] child_of(f1, x) == (if x == child.segment@ {
                    None
                } else {
                    child_of(f0, x)
                }) by {
                lemma_child_remove(f0, at, x);
            }
            lemma_child_remove(f0, at, child.segment@);
        } else {
            assert(f1 =~= f0.update(at, shrunk.model()));
            lemma_count_all_update(f0, at, shrunk.model());
            assert forall|x: Seq<char>|
                #[trigger] child_of(f1, x) == (if x == child.segment@ {
                    Some(shrunk.model())
                } else {
                    child_of(f0, x)
                }) by {
                lemma_child_update(f0, at, shrunk.model(), x);
            }
            lemma_child_update(f0, at, shrunk.model(), child.segment@);
        }
        assert forall|i: int| 0 <= i < after.children@.len() implies {
            &&& (#[trigger] after.children@[i]).counted()
            &&& after.children@[i].path@ == path_under(after.path@, after.children@[i].segment@)
        } by {
            let j = if emptied && i >= at {
                i + 1
            } else {
                i
            };
            assert(before.children@[j].counted());
        }
        assert forall|i: int| 0 <= i < f1.len() implies {
            &&& count(#[trigger] f1[i]) > 0
            &&& clean(f1[i].segment)
            &&& forest_wf(f1[i].children)
        } by {
            let j = if emptied && i >= at {
                i + 1
            } else {
                i
            };
            assert(count(f0[j]) > 0);
        }
    }

    proof fn lemma_keys_without(
        before: NodeModel,
        after: NodeModel,
        child: NodeModel,
        shrunk: NodeModel,
        segs: Seq<Seq<char>>,
    )
        requires
            segs.len() > 0,
            before.is_key == after.is_key,
            child_of(before.children, segs[0]) == Some(child),
            forall|x: Seq<char>|
                #[trigger] child_of(after.children, x) == (if x == segs[0] {
                    if count(shrunk) == 0 {
                        None
                    } else {
                        Some(shrunk)
                    }
                } else {
                    child_of(before.children, x)
                }),
            forall|s: Seq<Seq<char>>|
                #[trigger] has_key(shrunk, s) == (has_key(child, s) && s != segs.drop_first()),
        ensures
            forall|s: Seq<Seq<char>>| #[trigger]
                has_key(after, s) == (has_key(before, s) && s != segs),
    {
        assert forall|s: Seq<Seq<char>>| #[trigger]
            has_key(after, s) == (has_key(before, s) && s != segs) by {
            if s.len() > 0 {
                let x = s[0];
                let found = child_of(after.children, x);
                if x == segs[0] {
                    lemma_count_zero_or(shrunk, s.drop_first());
                    assert(has_key(shrunk, s.drop_first()) == (has_key(child, s.drop_first())
                        && s.drop_first() != segs.drop_first()));
                    assert(s == segs <==> s.drop_first() == segs.drop_first()) by {
                        assert(s =~= seq![s[0]] + s.drop_first());
                        assert(segs =~= seq![segs[0]] + segs.drop_first());
                    }
                }
            }
        }
    }
}

proof fn lemma_count_zero_or(node: NodeModel, segs: Seq<Seq<char>>)
    ensures
        count(node) == 0 ==> !has_key(node, segs),
{
    if count(node) == 0 {
        lemma_count_zero(node, segs);
    }
}

// ---------------------------------------------------------------------------
// Counting
// ---------------------------------------------------------------------------

/// The number of keys under siblings is their count.
pub proof fn lemma_forest_cardinality(forest: Seq<NodeModel>)
    requires
        forest_wf(forest),
    ensures
        keys_under(stem(forest)).finite(),
        keys_under(stem(forest)).len() == count_all(forest),
    decreases forest,
{
    let all = keys_under(stem(forest));
    if forest.len() == 0 {
        assert forall|s: Seq<Seq<char>>| !all.contains(s) by {
            if s.len() > 0 {
                assert forall|i: int| !named(forest, s[0], i) by {}
            }
        }
        assert(all =~= Set::empty());
    } else {
        let init = forest.drop_last();
        let last = forest.last();
        let n = forest.len() - 1;
        assert(forest[n] == last);
        assert(forest_wf(init)) by {
            assert forall|i: int, j: int|
                0 <= i < j < sibling_segments(init).len() implies text_lt(
                #[trigger] sibling_segments(init)[i],
                #[trigger] sibling_segments(init)[j],
            ) by {
                assert(text_lt(sibling_segments(forest)[i], sibling_segments(forest)[j]));
            }
            assert forall|i: int| 0 <= i < init.len() implies {
                &&& count(#[trigger] init[i]) > 0
                &&& clean(init[i].segment)
                &&& forest_wf(init[i].children)
            } by {
                assert(count(forest[i]) > 0);
            }
        }
        lemma_forest_cardinality(init);
        lemma_cardinality(last);
        let f = |s: Seq<Seq<char>>| seq![last.segment] + s;
        let mapped = keys_under(last).map(f);
        assert(vstd::relations::injective_on(f, keys_under(last))) by {
            assert forall|x1: Seq<Seq<char>>, x2: Seq<Seq<char>>|
                #[trigger] f(x1) == #[trigger] f(x2) implies x1 == x2 by {
                assert(f(x1).drop_first() =~= x1);
                assert(f(x2).drop_first() =~= x2);
            }
        }
        vstd::set_lib::lemma_map_size(keys_under(last), mapped, f);
        let rest = keys_under(stem(init));
        assert forall|s: Seq<Seq<char>>| all.contains(s) <==> rest.contains(s) || mapped.contains(
            s,
        ) by {
            lemma_last_sibling(forest, s);
            if s.len() > 0 && s[0] == last.segment && has_key(last, s.drop_first()) {
                assert(f(s.drop_first()) =~= s);
                assert(keys_under(last).contains(s.drop_first()));
                assert(mapped.contains(s));
            }
            if mapped.contains(s) {
                let t = choose|t: Seq<Seq<char>>| keys_under(last).contains(t) && f(t) == s;
                assert(s.drop_first() =~= t);
            }
        }
        assert(rest.disjoint(mapped)) by {
            assert forall|s: Seq<Seq<char>>| rest.contains(s) implies !mapped.contains(s) by {
                lemma_last_sibling(forest, s);
                if mapped.contains(s) {
                    let t = choose|t: Seq<Seq<char>>| keys_under(last).contains(t) && f(t) == s;
                    assert(s[0] == last.segment);
                }
            }
        }
        assert(all =~= rest + mapped);
        vstd::set_lib::lemma_set_disjoint_lens(rest, mapped);
    }
}

/// A key among siblings is either the last one's or one of the others'.
proof fn lemma_last_sibling(forest: Seq<NodeModel>, s: Seq<Seq<char>>)
    requires
        forest.len() > 0,
        ascending(sibling_segments(forest)),
    ensures
        has_key(stem(forest), s) == (if s.len() > 0 && s[0] == forest.last().segment {
            has_key(forest.last(), s.drop_first())
        } else {
            has_key(stem(forest.drop_last()), s)
        }),
        s.len() > 0 && s[0] == forest.last().segment ==> !has_key(stem(forest.drop_last()), s),
{
    if s.len() > 0 {
        let n = forest.len() - 1;
        let init = forest.drop_last();
        lemma_child_remove(forest, n, s[0]);
        assert(forest.remove(n) =~= init);
        if s[0] == forest.last().segment {
            lemma_child_found(forest, s[0], n);
        }
    }
}

/// The number of keys at or below a node is its count.
pub proof fn lemma_cardinality(node: NodeModel)
    requires
        forest_wf(node.children),
    ensures
        keys_under(node).finite(),
        keys_under(node).len() == count(node),
    decreases node,
{
    lemma_forest_cardinality(node.children);
    let below = keys_under(stem(node.children));
    let here = Seq::<Seq<char>>::empty();
    assert(!below.contains(here));
    assert forall|s: Seq<Seq<char>>|
        keys_under(node).contains(s) <==> below.contains(s) || (node.is_key && s == here) by {
        if s.len() == 0 {
            assert(s =~= here);
        }
    }
    if node.is_key {
        assert(keys_under(node) =~= below.insert(here));
    } else {
        assert(keys_under(node) =~= below);
    }
}

// ---------------------------------------------------------------------------
// The public tree
// ---------------------------------------------------------------------------

/// What a key tree holds: the nodes below its root, and a structure version.
pub struct TreeModel {
    pub forest: Seq<NodeModel>,
    pub version: u64,
}

impl TreeModel {
    /// The keys in the tree, as segments.
    pub open spec fn keys(self) -> Set<Seq<Seq<char>>> {
        keys_under(stem(self.forest))
    }

    /// The node that a path names.
    pub open spec fn at(self, path: Seq<char>) -> Option<NodeModel> {
        find_node(stem(self.forest), segments(path))
    }

    pub open spec fn wf(self) -> bool {
        forest_wf(self.forest) && shallow(stem(self.forest), (usize::MAX + 1) as nat)
    }
}

/// What a call can do to the tree: leave it alone, or change its keys and count up the
/// version.
pub open spec fn call_between(before: TreeModel, after: TreeModel) -> bool {
    after == before || (after.keys() != before.keys() && after.version
        == before.version.wrapping_add(1))
}

/// The tree of every key expression seen this session.
#[derive(Debug)]
pub struct KeyTree {
    root: TreeNode,
    version: u64,
}

impl View for KeyTree {
    type V = TreeModel;

    closed spec fn view(&self) -> TreeModel {
        TreeModel { forest: self.root.model().children, version: self.version }
    }
}

impl KeyTree {
    #[verifier::type_invariant]
    spec fn rooted(self) -> bool {
        &&& self.root.wf()
        &&& self.root.segment@.len() == 0
        &&& self.root.path@.len() == 0
        &&& !self.root.is_key
        &&& shallow(self.root.model(), (usize::MAX + 1) as nat)
    }

    proof fn lemma_root(self)
        requires
            self.rooted(),
        ensures
            self.root.model() == stem(self@.forest),
            self@.wf(),
            self@.keys().finite(),
            self@.keys().len() == self.root.key_count,
    {
        assert(self.root.segment@ =~= Seq::<char>::empty());
        lemma_forest_cardinality(self@.forest);
    }

    pub fn new() -> (t: Self)
        ensures
            t@.wf(),
            t@.keys() == Set::<Seq<Seq<char>>>::empty(),
            t@.forest == Seq::<NodeModel>::empty(),
            t@.version == 0,
    {
        let root = TreeNode::new("", "");
        proof {
            reveal_strlit("");
        }
        let t = KeyTree { root, version: 0 };
        proof {
            t.lemma_root();
            t@.keys().lemma_len0_is_empty();
        }
        t
    }

    /// Bumped whenever the structure changes, never on a repeat of a key already
    /// present. The render cache keys off this, so a steady stream of messages
    /// on known keys costs no re-flattening.
    pub fn version(&self) -> (v: u64)
        ensures
            v == self@.version,
    {
        self.version
    }

    /// Total keys in the tree.
    pub fn len(&self) -> (n: usize)
        ensures
            self@.keys().finite(),
            n == self@.keys().len(),
            n == count_all(self@.forest),
            self@.wf(),
    {
        proof {
            use_type_invariant(self);
            self.lemma_root();
            lemma_forest_cardinality(self@.forest);
        }
        self.root.key_count
    }

    pub fn is_empty(&self) -> (r: bool)
        ensures
            r == (self@.keys() == Set::<Seq<Seq<char>>>::empty()),
    {
        proof {
            use_type_invariant(self);
            self.lemma_root();
            if self.root.key_count == 0 {
                self@.keys().lemma_len0_is_empty();
            }
        }
        self.root.key_count == 0
    }

    /// The node that a path names.
    fn find(&self, key: &str) -> (r: Option<&TreeNode>)
        ensures
            match r {
                Some(n) => self@.at(key@) == Some(n.model()) && n.wf(),
                None => self@.at(key@) is None,
            },
    {
        proof {
            use_type_invariant(self);
            self.lemma_root();
        }
        let segs = split_key(key);
        let ghost all = texts(segs@);
        let mut node = &self.root;
        let mut i: usize = 0;
        assert(all.skip(0) =~= all);
        while i < segs.len()
            invariant
                all == texts(segs@),
                all == segments(key@),
                i <= segs.len(),
                node.wf(),
                find_node(stem(self@.forest), all) == find_node(node.model(), all.skip(i as int)),
            decreases segs.len() - i,
        {
            let (found, at) = node.position(segs[i].as_str());
            proof {
                assert(all.skip(i as int)[0] == segs@[i as int]@);
                assert(all.skip(i as int).drop_first() =~= all.skip(i as int + 1));
                lemma_models(node.children@);
            }
            if !found {
                return None;
            }
            proof {
                assert(node.model().children[at as int] == node.children@[at as int].model());
            }
            node = &node.children[at];
            i += 1;
        }
        assert(all.skip(i as int).len() == 0);
        Some(node)
    }

    /// Whether `key` has been recorded as a key (not merely as a prefix of one).
    pub fn contains(&self, key: &str) -> (r: bool)
        ensures
            r == self@.keys().contains(segments(key@)),
    {
        match self.find(key) {
            Some(n) => n.is_key,
            None => false,
        }
    }

    /// Record a key. Returns whether this changed the tree — false when the key
    /// was already present, which is the common case once a stream is running.
    pub fn insert(&mut self, key: &str) -> (r: bool)
        requires
            old(self)@.keys().len() < usize::MAX,
        ensures
            final(self)@.wf(),
            r == (segments(key@).len() > 0 && !old(self)@.keys().contains(segments(key@))),
            !r ==> final(self)@ == old(self)@,
            r ==> final(self)@.keys() == old(self)@.keys().insert(segments(key@)),
            r ==> final(self)@.version == old(self)@.version.wrapping_add(1),
            call_between(old(self)@, final(self)@),
    {
        let segs = split_key(key);
        proof {
            use_type_invariant(&*self);
            self.lemma_root();
            lemma_segments_clean(key@);
            assert(forall|i: int| 0 <= i < segs@.len() ==> #[trigger] segs@[i]@ == texts(segs@)[i]);
        }
        if segs.len() == 0 {
            return false;
        }
        if self.contains(key) {
            return false;
        }
        let ghost before = *self;
        let mut root = TreeNode::new("", "");
        proof {
            reveal_strlit("");
        }
        std::mem::swap(&mut root, &mut self.root);
        proof {
            assert(texts(segs@).skip(0) =~= texts(segs@));
            assert(before@.keys().contains(segments(key@)) == has_key(
                before.root.model(),
                segments(key@),
            ));
            lemma_cardinality(before.root.model());
        }
        TreeNode::insert_into(&mut root, &segs, 0);
        self.root = root;
        self.version = self.version.wrapping_add(1);
        proof {
            self.lemma_root();
            assert(self@.keys() =~= before@.keys().insert(segments(key@))) by {
                assert forall|s: Seq<Seq<char>>| self@.keys().contains(s) <==> before@.keys().insert(
                    segments(key@),
                ).contains(s) by {
                    assert(has_key(self.root.model(), s) == (has_key(before.root.model(), s) || s
                        == segments(key@)));
                }
            }
        }
        true
    }

    /// Forget a key, pruning any ancestors it was the last key under. Returns
    /// whether anything was removed.
    pub fn remove(&mut self, key: &str) -> (r: bool)
        ensures
            final(self)@.wf(),
            r == old(self)@.keys().contains(segments(key@)),
            !r ==> final(self)@ == old(self)@,
            final(self)@.keys() == old(self)@.keys().remove(segments(key@)),
            r ==> final(self)@.version == old(self)@.version.wrapping_add(1),
            call_between(old(self)@, final(self)@),
    {
        proof {
            use_type_invariant(&*self);
            self.lemma_root();
        }
        let ghost before = *self;
        if !self.contains(key) {
            assert(before@.keys().remove(segments(key@)) =~= before@.keys());
            return false;
        }
        let segs = split_key(key);
        let mut root = TreeNode::new("", "");
        proof {
            reveal_strlit("");
        }
        std::mem::swap(&mut root, &mut self.root);
        proof {
            assert(texts(segs@).skip(0) =~= texts(segs@));
            assert(has_key(before.root.model(), texts(segs@)));
            assert(texts(segs@).len() > 0);
        }
        TreeNode::remove_inner(&mut root, &segs, 0);
        assert(shallow(before.root.model(), (usize::MAX + 1) as nat));
        assert(shallow(root.model(), (usize::MAX + 1) as nat));
        self.root = root;
        self.version = self.version.wrapping_add(1);
        proof {
            self.lemma_root();
            assert(self@.keys() =~= before@.keys().remove(segments(key@))) by {
                assert forall|s: Seq<Seq<char>>| self@.keys().contains(s) <==> before@.keys().remove(
                    segments(key@),
                ).contains(s) by {
                    assert(has_key(self.root.model(), s) == (has_key(before.root.model(), s) && s
                        != segments(key@)));
                }
            }
        }
        true
    }

    /// Keys at or below `path`, or 0 if the path is unknown.
    pub fn key_count_at(&self, path: &str) -> (n: usize)
        ensures
            n == (match self@.at(path@) {
                Some(node) => keys_under(node).len(),
                None => 0,
            }),
    {
        match self.find(path) {
            Some(n) => {
                proof {
                    lemma_cardinality(n.model());
                }
                n.key_count
            },
            None => 0,
        }
    }

    /// Whether `path` names a branch that has children (as opposed to a leaf).
    pub fn has_children(&self, path: &str) -> (r: bool)
        ensures
            r == (match self@.at(path@) {
                Some(node) => node.children.len() > 0,
                None => false,
            }),
    {
        match self.find(path) {
            Some(n) => {
                proof {
                    lemma_models(n.children@);
                }
                n.children.len() > 0
            },
            None => false,
        }
    }
}

impl Clone for KeyTree {
    fn clone(&self) -> (t: Self)
        ensures
            t@ == self@,
    {
        proof {
            use_type_invariant(self);
        }
        KeyTree { root: self.root.duplicate(), version: self.version }
    }
}

impl Default for KeyTree {
    fn default() -> (t: Self)
        ensures
            t@.keys() == Set::<Seq<Seq<char>>>::empty(),
            t@.version == 0,
    {
        KeyTree::new()
    }
}

// ---------------------------------------------------------------------------
// Flattening
// ---------------------------------------------------------------------------

/// What a flattened row is.
#[derive(Debug, Clone, Copy, PartialEq, Eq, Structural)]
pub enum RowKind {
    /// An intermediate segment. `expanded` is what the row should draw, which
    /// under an active filter can be true even when the user never expanded it.
    Branch { expanded: bool },
    /// A real key: a message has arrived on exactly this path.
    Leaf,
    /// Stands in for `hidden` sibling rows that were folded away. Carries its
    /// parent's `path`, so unfolding is "add this path to `unfolded`".
    FoldSummary { hidden: usize },
}

/// One visible row produced by [`KeyTree::flatten`].
#[derive(Debug, Clone, PartialEq, Eq)]
pub struct TreeRow {
    pub path: String,
    pub segment: String,
    pub depth: usize,
    pub kind: RowKind,
    /// Keys at or below this row.
    pub key_count: usize,
}

/// A row, as a mathematical value.
pub struct RowModel {
    pub path: Seq<char>,
    pub segment: Seq<char>,
    pub depth: nat,
    pub kind: RowKind,
    pub key_count: nat,
}

impl View for TreeRow {
    type V = RowModel;

    open spec fn view(&self) -> RowModel {
        RowModel {
            path: self.path@,
            segment: self.segment@,
            depth: self.depth as nat,
            kind: self.kind,
            key_count: self.key_count as nat,
        }
    }
}

/// The models of a list of rows.
pub open spec fn row_models(rows: Seq<TreeRow>) -> Seq<RowModel> {
    Seq::new(rows.len(), |i: int| rows[i]@)
}

/// How to flatten the tree into rows.
pub struct FlattenOpts<'a> {
    /// Branches the user has opened.
    pub expanded: &'a KeySet,
    /// Branches whose over-threshold children the user has asked to see in full.
    pub unfolded: &'a KeySet,
    /// Case-insensitive substring filter. Empty means no filtering.
    pub filter: &'a str,
    /// Above this many children, an expanded branch shows one summary row
    /// instead of listing them.
    pub fold_threshold: usize,
}

/// The flatten options, as a mathematical value.
pub struct FlattenModel {
    pub expanded: Set<Seq<char>>,
    pub unfolded: Set<Seq<char>>,
    pub filter: Seq<char>,
    pub fold_threshold: nat,
}

impl<'a> View for FlattenOpts<'a> {
    type V = FlattenModel;

    open spec fn view(&self) -> FlattenModel {
        FlattenModel {
            expanded: self.expanded@,
            unfolded: self.unfolded@,
            filter: self.filter@,
            fold_threshold: self.fold_threshold as nat,
        }
    }
}

impl FlattenModel {
    pub open spec fn filtering(self) -> bool {
        self.filter.len() > 0
    }

    /// Whether a path satisfies the filter by itself.
    pub open spec fn accepts(self, path: Seq<char>) -> bool {
        !self.filtering() || occurs(lowercased(path), lowercased(self.filter))
    }

    /// Whether a branch draws open. Under a filter every branch on a kept path
    /// does; otherwise it is whatever the user left it as.
    pub open spec fn opens(self, path: Seq<char>) -> bool {
        self.filtering() || self.expanded.contains(path)
    }

    /// Whether an open branch shows one summary row in place of its children.
    pub open spec fn folds(self, path: Seq<char>, children: nat) -> bool {
        !self.filtering() && children > self.fold_threshold && !self.unfolded.contains(path)
    }
}

/// The rows that a node contributes: nothing, or its own row followed by what
/// is shown below it. A node is shown when its path or an ancestor's passes the
/// filter, or when something below it is shown.
pub open spec fn node_rows(
    node: NodeModel,
    path: Seq<char>,
    o: FlattenModel,
    depth: nat,
    ancestor_matched: bool,
) -> Seq<RowModel>
    decreases node,
{
    let matched = ancestor_matched || o.accepts(path);
    let branch = node.children.len() > 0;
    let own = RowModel {
        path,
        segment: node.segment,
        depth,
        kind: if branch {
            RowKind::Branch { expanded: o.opens(path) }
        } else {
            RowKind::Leaf
        },
        key_count: count(node),
    };
    let below = if !branch || !o.opens(path) {
        Seq::<RowModel>::empty()
    } else if o.folds(path, node.children.len()) {
        seq![
            RowModel {
                path,
                segment: Seq::empty(),
                depth: depth + 1,
                kind: RowKind::FoldSummary { hidden: node.children.len() as usize },
                key_count: count(node),
            },
        ]
    } else {
        forest_rows(node.children, path, o, depth + 1, matched)
    };
    if matched || below.len() > 0 {
        seq![own] + below
    } else {
        Seq::empty()
    }
}

/// The rows of siblings, in order.
pub open spec fn forest_rows(
    forest: Seq<NodeModel>,
    parent: Seq<char>,
    o: FlattenModel,
    depth: nat,
    ancestor_matched: bool,
) -> Seq<RowModel>
    decreases forest,
{
    if forest.len() == 0 {
        Seq::empty()
    } else {
        forest_rows(forest.drop_last(), parent, o, depth, ancestor_matched) + node_rows(
            forest.last(),
            path_under(parent, forest.last().segment),
            o,
            depth,
            ancestor_matched,
        )
    }
}

impl KeyTree {
    /// The visible rows, in display order.
    ///
    /// Two rules make the filter and the fold compose:
    ///
    /// - A branch is kept when its own path matches **or** any descendant's
    ///   does, and a branch that matches keeps its whole subtree.
    /// - Filtering ignores `fold_threshold` entirely. Typing a filter is how you
    ///   look inside a folded group, so folding the results back up would close
    ///   the only door into them.
    ///
    /// While a filter is active, branches on the way to a match draw as expanded
    /// without touching `expanded` — the user's own expansion state is left
    /// alone so clearing the filter restores exactly the tree they had.
    pub fn flatten(&self, opts: &FlattenOpts) -> (rows: Vec<TreeRow>)
        ensures
            row_models(rows@) == forest_rows(self@.forest, Seq::empty(), opts@, 0, false),
            opts@.filter.len() == 0 ==> lists_what_is_open(row_models(rows@), self@, opts@),
    {
        let needle = lowercase(opts.filter);
        let mut rows: Vec<TreeRow> = Vec::new();
        proof {
            use_type_invariant(self);
            self.lemma_root();
            lemma_models(self.root.children@);
            assert(self.root.path@ =~= Seq::<char>::empty());
            assert(self@.forest.take(0) =~= Seq::empty());
            assert(row_models(rows@) =~= Seq::empty());
        }
        let mut i: usize = 0;
        while i < self.root.children.len()
            invariant
                i <= self.root.children.len(),
                self.root.wf(),
                self.root.path@ == Seq::<char>::empty(),
                self@.forest == self.root.model().children,
                self@.forest.len() == self.root.children@.len(),
                forall|k: int|
                    0 <= k < self@.forest.len() ==> {
                        &&& (#[trigger] self@.forest[k]) == self.root.children@[k].model()
                        &&& self@.forest[k].segment == self.root.children@[k].segment@
                    },
                shallow(stem(self@.forest), (usize::MAX + 1) as nat),
                needle@ == lowercased(opts@.filter),
                row_models(rows@) == forest_rows(
                    self@.forest.take(i as int),
                    Seq::empty(),
                    opts@,
                    0,
                    false,
                ),
            decreases self.root.children.len() - i,
        {
            let ghost node = self@.forest[i as int];
            assert(stem(self@.forest).children[i as int] == node);
            assert(self@.forest.take(i as int + 1).drop_last() =~= self@.forest.take(i as int));
            assert(self@.forest.take(i as int + 1).last() == node);
            let _ = Self::walk(&self.root.children[i], opts, needle.as_str(), 0, false, &mut rows);
            i += 1;
        }
        proof {
            assert(self@.forest.take(i as int) =~= self@.forest);
            if opts@.filter.len() == 0 {
                law_the_rows_list_what_is_open(self@, opts@);
            }
        }
        rows
    }

    /// Append `node`'s rows. Returns whether it kept anything.
    ///
    /// The row is pushed before the children are known, then truncated away if
    /// nothing under it matched — one pass instead of a matches-anywhere probe
    /// per node.
    fn walk(
        node: &TreeNode,
        opts: &FlattenOpts,
        needle: &str,
        depth: usize,
        ancestor_matched: bool,
        rows: &mut Vec<TreeRow>,
    ) -> (kept: bool)
        requires
            node.wf(),
            needle@ == lowercased(opts@.filter),
            shallow(node.model(), (usize::MAX - depth) as nat),
        ensures
            row_models(final(rows)@) == row_models(old(rows)@) + node_rows(
                node.model(),
                node.path@,
                opts@,
                depth as nat,
                ancestor_matched,
            ),
            kept == (node_rows(
                node.model(),
                node.path@,
                opts@,
                depth as nat,
                ancestor_matched,
            ).len() > 0),
            final(rows)@.len() >= old(rows)@.len(),
            final(rows)@.take(old(rows)@.len() as int) == old(rows)@,
        decreases node,
    {
        let ghost o = opts@;
        let ghost path = node.path@;
        let ghost m = node.model();
        let filtering = !opts.filter.is_empty();
        let self_matched = ancestor_matched || !filtering || contains_text(
            lowercase(node.path.as_str()).as_str(),
            needle,
        );
        let is_branch = node.children.len() > 0;
        let expanded = if filtering {
            true
        } else {
            opts.expanded.contains(node.path.as_str())
        };
        let mark: usize = rows.len();
        let ghost start = rows@;
        proof {
            lemma_models(node.children@);
        }
        let kind = if is_branch {
            RowKind::Branch { expanded }
        } else {
            RowKind::Leaf
        };
        rows.push(
            TreeRow {
                path: node.path.clone(),
                segment: node.segment.clone(),
                depth,
                kind,
                key_count: node.key_count,
            },
        );
        let ghost own = rows@[start.len() as int]@;
        assert(rows@.take(start.len() as int) =~= start);
        let mut kept_child = false;
        let ghost below = Seq::<RowModel>::empty();
        assert(row_models(rows@) =~= row_models(start).push(own));
        if is_branch && expanded {
            assert(shallow(m.children[0], (usize::MAX - depth - 1) as nat));
            let folded = !filtering && node.children.len() > opts.fold_threshold
                && !opts.unfolded.contains(node.path.as_str());
            if folded {
                rows.push(
                    TreeRow {
                        path: node.path.clone(),
                        segment: String::new(),
                        depth: depth + 1,
                        kind: RowKind::FoldSummary { hidden: node.children.len() },
                        key_count: node.key_count,
                    },
                );
                kept_child = true;
                proof {
                    let fold = rows@[start.len() as int + 1]@;
                    below = seq![fold];
                    assert(rows@.take(start.len() as int) =~= start);
                    assert(row_models(rows@) =~= row_models(start).push(own) + below);
                }
            } else {
                let mut i: usize = 0;
                assert(m.children.take(0) =~= Seq::empty());
                assert(row_models(rows@) =~= row_models(start).push(own) + below);
                while i < node.children.len()
                    invariant
                        i <= node.children.len(),
                        node.wf(),
                        needle@ == lowercased(opts@.filter),
                        o == opts@,
                        m == node.model(),
                        path == node.path@,
                        depth < usize::MAX,
                        shallow(m, (usize::MAX - depth) as nat),
                        m.children.len() == node.children@.len(),
                        forall|k: int|
                            0 <= k < m.children.len() ==> {
                                &&& (#[trigger] m.children[k]) == node.children@[k].model()
                                &&& m.children[k].segment == node.children@[k].segment@
                            },
                        below == forest_rows(
                            m.children.take(i as int),
                            path,
                            o,
                            (depth + 1) as nat,
                            self_matched,
                        ),
                        kept_child == (below.len() > 0),
                        rows@.len() > start.len(),
                        rows@.take(start.len() as int) == start,
                        row_models(rows@) == row_models(start).push(own) + below,
                    decreases node.children.len() - i,
                {
                    let ghost rows0 = rows@;
                    assert(shallow(m.children[i as int], (usize::MAX - depth - 1) as nat));
                    assert(m.children.take(i as int + 1).drop_last() =~= m.children.take(i as int));
                    assert(m.children.take(i as int + 1).last() == m.children[i as int]);
                    let kept = Self::walk(
                        &node.children[i],
                        opts,
                        needle,
                        depth + 1,
                        self_matched,
                        rows,
                    );
                    kept_child = kept_child || kept;
                    proof {
                        assert(rows@.take(start.len() as int) =~= rows0.take(start.len() as int));
                        below = forest_rows(
                            m.children.take(i as int + 1),
                            path,
                            o,
                            (depth + 1) as nat,
                            self_matched,
                        );
                    }
                    i += 1;
                }
                assert(m.children.take(i as int) =~= m.children);
            }
        }
        if self_matched || kept_child {
            assert(row_models(rows@) =~= row_models(start) + (seq![own] + below));
            true
        } else {
            rows.truncate(mark);
            assert(rows@ =~= start);
            assert(row_models(rows@) =~= row_models(start) + Seq::<RowModel>::empty());
            false
        }
    }
}

// ---------------------------------------------------------------------------
// Branches
// ---------------------------------------------------------------------------

/// The paths of the nodes that have children, each before what is below it.
pub open spec fn branches(forest: Seq<NodeModel>, parent: Seq<char>) -> Seq<Seq<char>>
    decreases forest,
{
    if forest.len() == 0 {
        Seq::empty()
    } else {
        let path = path_under(parent, forest.last().segment);
        branches(forest.drop_last(), parent) + (if forest.last().children.len() > 0 {
            seq![path] + branches(forest.last().children, path)
        } else {
            Seq::empty()
        })
    }
}

/// The run of branches downwards while each has exactly one sibling: itself.
pub open spec fn chain(forest: Seq<NodeModel>, parent: Seq<char>) -> Seq<Seq<char>>
    decreases forest,
{
    if forest.len() == 1 && forest[0].children.len() > 0 {
        let path = path_under(parent, forest[0].segment);
        seq![path] + chain(forest[0].children, path)
    } else {
        Seq::empty()
    }
}

impl KeyTree {
    /// Every path that has children, each before those below it.
    ///
    /// Used to open a small tree completely, so a handful of keys looks like the
    /// flat list it effectively is rather than making the user expand to reach
    /// anything.
    pub fn branch_paths(&self) -> (v: Vec<String>)
        ensures
            texts(v@) == branches(self@.forest, Seq::empty()),
    {
        let mut out: Vec<String> = Vec::new();
        proof {
            use_type_invariant(self);
            self.lemma_root();
            assert(self.root.path@ =~= Seq::<char>::empty());
        }
        Self::collect_branches(&self.root, &mut out);
        assert(texts(out@) =~= branches(self@.forest, Seq::empty()));
        out
    }

    fn collect_branches(node: &TreeNode, out: &mut Vec<String>)
        requires
            node.wf(),
        ensures
            texts(final(out)@) == texts(old(out)@) + branches(node.model().children, node.path@),
        decreases node,
    {
        let ghost m = node.model();
        let ghost start = texts(out@);
        proof {
            lemma_models(node.children@);
            assert(m.children.take(0) =~= Seq::empty());
            assert(start + Seq::<Seq<char>>::empty() =~= start);
        }
        let mut i: usize = 0;
        while i < node.children.len()
            invariant
                i <= node.children.len(),
                node.wf(),
                m == node.model(),
                m.children.len() == node.children@.len(),
                forall|k: int|
                    0 <= k < m.children.len() ==> {
                        &&& (#[trigger] m.children[k]) == node.children@[k].model()
                        &&& m.children[k].segment == node.children@[k].segment@
                        &&& m.children[k].children.len() == node.children@[k].children@.len()
                    },
                texts(out@) == start + branches(m.children.take(i as int), node.path@),
            decreases node.children.len() - i,
        {
            let child = &node.children[i];
            let ghost out0 = texts(out@);
            assert(m.children.take(i as int + 1).drop_last() =~= m.children.take(i as int));
            assert(m.children.take(i as int + 1).last() == m.children[i as int]);
            if child.children.len() > 0 {
                let ghost raw = out@;
                out.push(child.path.clone());
                assert(texts(out@) =~= texts(raw).push(child.path@));
                Self::collect_branches(child, out);
            }
            i += 1;
            assert(texts(out@) =~= start + branches(m.children.take(i as int), node.path@));
        }
        assert(m.children.take(i as int) =~= m.children);
    }

    /// The paths of all keys, each before those below it.
    pub(crate) fn key_paths(&self) -> (v: Vec<String>)
        ensures
            texts(v@) == paths_where(self@.forest, Seq::empty(), |n: NodeModel| n.is_key),
            self@.wf(),
    {
        let mut out: Vec<String> = Vec::new();
        proof {
            use_type_invariant(self);
            self.lemma_root();
            assert(self.root.path@ =~= Seq::<char>::empty());
        }
        Self::collect_keys(&self.root, &mut out);
        assert(texts(out@) =~= paths_where(
            self@.forest,
            Seq::empty(),
            |n: NodeModel| n.is_key,
        ));
        out
    }

    fn collect_keys(node: &TreeNode, out: &mut Vec<String>)
        requires
            node.wf(),
        ensures
            texts(final(out)@) == texts(old(out)@) + paths_where(
                node.model().children,
                node.path@,
                |n: NodeModel| n.is_key,
            ),
        decreases node,
    {
        let ghost keep = |n: NodeModel| n.is_key;
        let ghost m = node.model();
        let ghost start = texts(out@);
        proof {
            lemma_models(node.children@);
            assert(m.children.take(0) =~= Seq::empty());
            assert(start + Seq::<Seq<char>>::empty() =~= start);
        }
        let mut i: usize = 0;
        while i < node.children.len()
            invariant
                i <= node.children.len(),
                node.wf(),
                keep == (|n: NodeModel| n.is_key),
                m == node.model(),
                m.children.len() == node.children@.len(),
                forall|k: int|
                    0 <= k < m.children.len() ==> {
                        &&& (#[trigger] m.children[k]) == node.children@[k].model()
                        &&& m.children[k].segment == node.children@[k].segment@
                        &&& m.children[k].is_key == node.children@[k].is_key
                    },
                texts(out@) == start + paths_where(m.children.take(i as int), node.path@, keep),
            decreases node.children.len() - i,
        {
            let child = &node.children[i];
            assert(m.children.take(i as int + 1).drop_last() =~= m.children.take(i as int));
            assert(m.children.take(i as int + 1).last() == m.children[i as int]);
            if child.is_key {
                let ghost raw = out@;
                out.push(child.path.clone());
                assert(texts(out@) =~= texts(raw).push(child.path@));
            }
            Self::collect_keys(child, out);
            i += 1;
            assert(texts(out@) =~= start + paths_where(
                m.children.take(i as int),
                node.path@,
                keep,
            ));
        }
        assert(m.children.take(i as int) =~= m.children);
    }

    /// The run of branches from the root down while each has exactly one child.
    ///
    /// A namespace under a single common prefix (`agv/...` and nothing else)
    /// would otherwise open on one useless row; this opens through the shared
    /// stem to the first point where there is actually a choice to make.
    pub fn single_child_chain(&self) -> (v: Vec<String>)
        ensures
            texts(v@) == chain(self@.forest, Seq::empty()),
    {
        let mut out: Vec<String> = Vec::new();
        proof {
            use_type_invariant(self);
            self.lemma_root();
            assert(self.root.path@ =~= Seq::<char>::empty());
        }
        let mut node = &self.root;
        assert(texts(out@) + chain(node.model().children, node.path@) =~= chain(
            self@.forest,
            Seq::empty(),
        ));
        while node.children.len() == 1
            invariant_except_break
                node.wf(),
                texts(out@) + chain(node.model().children, node.path@) == chain(
                    self@.forest,
                    Seq::empty(),
                ),
            ensures
                texts(out@) == chain(self@.forest, Seq::empty()),
            decreases *node,
        {
            let child = &node.children[0];
            proof {
                lemma_models(node.children@);
                assert(node.model().children[0] == child.model());
            }
            if child.children.len() == 0 {
                assert(texts(out@) =~= chain(self@.forest, Seq::empty()));
                break;
            }
            let ghost raw = out@;
            out.push(child.path.clone());
            assert(texts(out@) =~= texts(raw).push(child.path@));
            assert(texts(out@) + chain(child.model().children, child.path@) =~= texts(raw) + chain(
                node.model().children,
                node.path@,
            ));
            node = child;
        }
        out
    }
}

} // verus!
