//! What the key tree answers, in terms of the keys recorded in it.
use vstd::prelude::*;

use crate::keyed::lemma_ascending_distinct;
use crate::text::{joined, segments};
use crate::tree::{
    branches, call_between, chain, find_node, forest_wf, has_key, keys_under, lemma_cardinality,
    named, sibling_segments, stem, NodeModel, TreeModel,
};
use crate::tree_laws::lemma_sibling_has_key;
use crate::tree_paths::{
    clean_all, lemma_branches, lemma_first_step, lemma_found, lemma_found_below, lemma_joined_push,
    lemma_normal_form, lemma_paths_where, lemma_segments_joined,
};

verus! {

/// Whether a key lies at or below where the segments lead.
pub open spec fn at_or_below(key: Seq<Seq<char>>, segs: Seq<Seq<char>>) -> bool {
    key.len() >= segs.len() && key.take(segs.len() as int) == segs
}

/// Whether a key lies strictly below where the segments lead.
pub open spec fn strictly_below(key: Seq<Seq<char>>, segs: Seq<Seq<char>>) -> bool {
    key.len() > segs.len() && key.take(segs.len() as int) == segs
}

/// The recorded keys at or below where the segments lead.
pub open spec fn keys_at_or_below(t: TreeModel, segs: Seq<Seq<char>>) -> Set<Seq<Seq<char>>> {
    Set::new(|key: Seq<Seq<char>>| t.keys().contains(key) && at_or_below(key, segs))
}

/// The number of keys that the tree gives for a path.
pub open spec fn count_at(t: TreeModel, path: Seq<char>) -> nat {
    match t.at(path) {
        Some(node) => keys_under(node).len(),
        None => 0,
    }
}

/// Whether the tree has children for a path.
pub open spec fn branch_at(t: TreeModel, path: Seq<char>) -> bool {
    match t.at(path) {
        Some(node) => node.children.len() > 0,
        None => false,
    }
}

/// A path and its normal form — its segments joined by single slashes — are answered
/// alike, and a path without segments is no key.
pub proof fn law_a_path_and_its_normal_form_are_one(t: TreeModel, path: Seq<char>)
    ensures
        t.at(joined(segments(path))) == t.at(path),
        t.keys().contains(segments(joined(segments(path)))) == t.keys().contains(segments(path)),
        joined(segments(path)).len() == 0 ==> !t.keys().contains(segments(path)),
{
    lemma_normal_form(path);
    let segs = segments(path);
    if joined(segs).len() == 0 && segs.len() > 0 {
        assert(crate::tree::clean(segs[segs.len() - 1]));
    }
}

proof fn lemma_has_key_below(t: TreeModel, segs: Seq<Seq<char>>, more: Seq<Seq<char>>)
    ensures
        t.keys().contains(segs + more) == (match find_node(stem(t.forest), segs) {
            Some(n) => has_key(n, more),
            None => false,
        }),
{
    lemma_found_below(stem(t.forest), segs, more);
}

/// The number that the tree gives for a path is the number of recorded keys at or below
/// it: all of them for the empty path, and none for a path that leads nowhere.
pub proof fn law_key_counts_count_the_keys_below(t: TreeModel, path: Seq<char>)
    requires
        t.wf(),
    ensures
        keys_at_or_below(t, segments(path)).finite(),
        count_at(t, path) == keys_at_or_below(t, segments(path)).len(),
        segments(path).len() == 0 ==> count_at(t, path) == t.keys().len(),
        t.at(path) is None ==> count_at(t, path) == 0,
{
    let segs = segments(path);
    let n = segs.len() as int;
    let below = keys_at_or_below(t, segs);
    assert forall|key: Seq<Seq<char>>| below.contains(key) implies key == segs + #[trigger] key.skip(
        n,
    ) by {
        assert(key =~= key.take(n) + key.skip(n));
    }
    match t.at(path) {
        Some(node) => {
            lemma_found(stem(t.forest), segs);
            lemma_cardinality(node);
            let f = |s: Seq<Seq<char>>| segs + s;
            assert(vstd::relations::injective_on(f, keys_under(node))) by {
                assert forall|x1: Seq<Seq<char>>, x2: Seq<Seq<char>>|
                    #[trigger] f(x1) == #[trigger] f(x2) implies x1 == x2 by {
                    assert(f(x1).skip(n) =~= x1);
                    assert(f(x2).skip(n) =~= x2);
                }
            }
            assert forall|key: Seq<Seq<char>>| below.contains(key) <==> keys_under(node).map(
                f,
            ).contains(key) by {
                if below.contains(key) {
                    lemma_has_key_below(t, segs, key.skip(n));
                    assert(keys_under(node).contains(key.skip(n)));
                    assert(f(key.skip(n)) == key);
                }
                if keys_under(node).map(f).contains(key) {
                    let s = choose|s: Seq<Seq<char>>| keys_under(node).contains(s) && f(s) == key;
                    lemma_has_key_below(t, segs, s);
                    assert(key.take(n) =~= segs);
                }
            }
            assert(below =~= keys_under(node).map(f));
            vstd::set_lib::lemma_map_size(keys_under(node), below, f);
        },
        None => {
            assert forall|key: Seq<Seq<char>>| !below.contains(key) by {
                if below.contains(key) {
                    lemma_has_key_below(t, segs, key.skip(n));
                }
            }
            assert(below =~= Set::empty());
        },
    }
    if n == 0 {
        assert(segs =~= Seq::empty());
        assert forall|key: Seq<Seq<char>>| below.contains(key) <==> t.keys().contains(key) by {
            assert(key.take(0) =~= segs);
        }
        assert(below =~= t.keys());
    }
}

/// A path has children exactly when some recorded key lies strictly below it — so a
/// path that is only a prefix of keys has children without being a key.
pub proof fn law_children_lead_to_keys(t: TreeModel, path: Seq<char>)
    requires
        t.wf(),
    ensures
        branch_at(t, path) <==> exists|key: Seq<Seq<char>>| #[trigger]
            t.keys().contains(key) && strictly_below(key, segments(path)),
{
    let segs = segments(path);
    let n = segs.len() as int;
    if branch_at(t, path) {
        let node = t.at(path)->0;
        lemma_found(stem(t.forest), segs);
        let s = lemma_sibling_has_key(node.children, 0);
        assert(has_key(node, s));
        lemma_has_key_below(t, segs, s);
        assert((segs + s).take(n) =~= segs);
        assert(t.keys().contains(segs + s) && strictly_below(segs + s, segs));
    }
    if exists|key: Seq<Seq<char>>| #[trigger]
        t.keys().contains(key) && strictly_below(key, segs) {
        let key = choose|key: Seq<Seq<char>>| #[trigger]
            t.keys().contains(key) && strictly_below(key, segs);
        let more = key.skip(n);
        assert(key =~= segs + more);
        lemma_has_key_below(t, segs, more);
        assert(more.len() > 0);
        let node = t.at(path)->0;
        assert(exists|i: int| named(node.children, more[0], i));
    }
}

/// The branch paths are exactly the paths, in normal form, that have children.
pub proof fn law_branch_paths_are_the_paths_with_children(t: TreeModel, path: Seq<char>)
    requires
        t.wf(),
    ensures
        branches(t.forest, Seq::empty()).contains(path) <==> path == joined(segments(path))
            && path.len() > 0 && branch_at(t, path),
{
    let none = Seq::<Seq<char>>::empty();
    let segs = segments(path);
    lemma_branches(t.forest, Seq::empty());
    lemma_paths_where(t.forest, none, |n: NodeModel| n.children.len() > 0, path);
    assert(joined(none) =~= Seq::<char>::empty());
    assert(segs.take(0) =~= none);
    assert(segs.skip(0) =~= segs);
    lemma_normal_form(path);
    if segs.len() > 0 {
        assert(crate::tree::clean(segs[segs.len() - 1]));
    } else {
        assert(joined(segs) =~= Seq::<char>::empty());
    }
}

// ---------------------------------------------------------------------------
// The shared stem
// ---------------------------------------------------------------------------

/// Whether one leads to the other.
pub open spec fn on_one_line(a: Seq<Seq<char>>, b: Seq<Seq<char>>) -> bool {
    at_or_below(a, b) || at_or_below(b, a)
}

/// Whether everything under siblings passes through where the segments lead, or stops
/// on the way, and something lies below.
pub open spec fn shared(forest: Seq<NodeModel>, segs: Seq<Seq<char>>) -> bool {
    &&& exists|key: Seq<Seq<char>>| #[trigger]
        has_key(stem(forest), key) && strictly_below(key, segs)
    &&& forall|key: Seq<Seq<char>>| #[trigger]
        has_key(stem(forest), key) ==> on_one_line(key, segs)
}

proof fn lemma_not_shared(forest: Seq<NodeModel>, segs: Seq<Seq<char>>)
    requires
        forest_wf(forest),
        segs.len() > 0,
        forest.len() != 1 || forest[0].children.len() == 0,
    ensures
        !shared(forest, segs),
{
    if shared(forest, segs) {
        let key = choose|key: Seq<Seq<char>>| #[trigger]
            has_key(stem(forest), key) && strictly_below(key, segs);
        assert(exists|i: int| named(forest, key[0], i));
        if forest.len() == 1 {
            lemma_first_step(forest, 0, key);
            assert(key.drop_first().len() > 0);
        } else {
            let a = lemma_sibling_has_key(forest, 0);
            let b = lemma_sibling_has_key(forest, 1);
            assert(on_one_line(a, segs) && on_one_line(b, segs));
            lemma_same_start(a, segs);
            lemma_same_start(b, segs);
            lemma_ascending_distinct(sibling_segments(forest));
            assert(sibling_segments(forest)[0] != sibling_segments(forest)[1]);
        }
    }
}

proof fn lemma_same_start(a: Seq<Seq<char>>, b: Seq<Seq<char>>)
    requires
        on_one_line(a, b),
        a.len() > 0,
        b.len() > 0,
    ensures
        a[0] == b[0],
{
    if at_or_below(a, b) {
        assert(a.take(b.len() as int)[0] == a[0]);
    } else {
        assert(b.take(a.len() as int)[0] == b[0]);
    }
}

proof fn lemma_below_shift(a: Seq<Seq<char>>, b: Seq<Seq<char>>)
    requires
        a.len() > 0,
        b.len() > 0,
        a[0] == b[0],
    ensures
        at_or_below(a, b) == at_or_below(a.drop_first(), b.drop_first()),
        strictly_below(a, b) == strictly_below(a.drop_first(), b.drop_first()),
{
    if a.len() >= b.len() {
        let n = b.len() as int;
        assert(a.take(n).drop_first() =~= a.drop_first().take(n - 1));
        assert(a.take(n) =~= seq![a[0]] + a.take(n).drop_first());
        assert(b =~= seq![b[0]] + b.drop_first());
    }
}

/// Through an only child, what is shared below is shared above.
proof fn lemma_shared_below(forest: Seq<NodeModel>, segs: Seq<Seq<char>>)
    requires
        forest_wf(forest),
        forest.len() == 1,
        forest[0].children.len() > 0,
        segs.len() > 1,
        segs[0] == forest[0].segment,
    ensures
        shared(forest, segs) == shared(forest[0].children, segs.drop_first()),
{
    let node = forest[0];
    let rest = segs.drop_first();
    assert forall|key: Seq<Seq<char>>| key.len() > 0 implies #[trigger] has_key(stem(forest), key)
        == (key[0] == node.segment && has_key(node, key.drop_first())) by {
        if key[0] == node.segment {
            lemma_first_step(forest, 0, key);
        } else {
            assert forall|i: int| !named(forest, key[0], i) by {}
        }
    }
    if shared(forest, segs) {
        let key = choose|key: Seq<Seq<char>>| #[trigger]
            has_key(stem(forest), key) && strictly_below(key, segs);
        assert(key.take(segs.len() as int)[0] == key[0]);
        lemma_below_shift(key, segs);
        assert(has_key(stem(node.children), key.drop_first()));
        assert forall|s: Seq<Seq<char>>| #[trigger]
            has_key(stem(node.children), s) implies on_one_line(s, rest) by {
            let k = seq![node.segment] + s;
            assert(k.drop_first() =~= s);
            assert(s.len() > 0);
            assert(has_key(node, s));
            assert(has_key(stem(forest), k));
            lemma_below_shift(k, segs);
            lemma_below_shift(segs, k);
        }
    }
    if shared(node.children, rest) {
        let s = choose|s: Seq<Seq<char>>| #[trigger]
            has_key(stem(node.children), s) && strictly_below(s, rest);
        let k = seq![node.segment] + s;
        assert(k.drop_first() =~= s);
        assert(has_key(node, s));
        assert(has_key(stem(forest), k));
        lemma_below_shift(k, segs);
        assert forall|key: Seq<Seq<char>>| #[trigger]
            has_key(stem(forest), key) implies on_one_line(key, segs) by {
            let t = key.drop_first();
            lemma_below_shift(key, segs);
            lemma_below_shift(segs, key);
            if t.len() > 0 {
                assert(has_key(stem(node.children), t));
            } else {
                assert(rest.take(0) =~= t);
                assert(at_or_below(rest, t));
            }
        }
    }
}

proof fn lemma_chain(forest: Seq<NodeModel>, base: Seq<Seq<char>>, path: Seq<char>)
    requires
        forest_wf(forest),
        clean_all(base),
    ensures
        chain(forest, joined(base)).contains(path) <==> {
            let segs = segments(path);
            &&& path == joined(segs)
            &&& strictly_below(segs, base)
            &&& shared(forest, segs.skip(base.len() as int))
        },
    decreases forest,
{
    let segs = segments(path);
    let n = base.len() as int;
    let found = chain(forest, joined(base));
    if forest.len() == 1 && forest[0].children.len() > 0 {
        let node = forest[0];
        assert(crate::tree::count(node) > 0);
        let here = base.push(node.segment);
        lemma_joined_push(base, node.segment);
        lemma_segments_joined(here);
        lemma_chain(node.children, here, path);
        let below = chain(node.children, joined(here));
        assert(found == seq![joined(here)] + below);
        assert(found.contains(path) <==> path == joined(here) || below.contains(path)) by {
            assert(found[0] == joined(here));
            if below.contains(path) {
                assert(found[below.index_of(path) + 1] == path);
            }
            if found.contains(path) && found.index_of(path) > 0 {
                assert(below[found.index_of(path) - 1] == path);
            }
        }
        assert(here.take(n) =~= base);
        if path == joined(here) {
            let rel = segs.skip(n);
            assert(rel =~= seq![node.segment]);
            let s = lemma_sibling_has_key(node.children, 0);
            let k = seq![node.segment] + s;
            assert(k.drop_first() =~= s);
            lemma_first_step(forest, 0, k);
            assert(has_key(node, s));
            assert(k.take(1) =~= rel);
            assert(has_key(stem(forest), k) && strictly_below(k, rel));
            assert forall|key: Seq<Seq<char>>| #[trigger]
                has_key(stem(forest), key) implies on_one_line(key, rel) by {
                assert(exists|i: int| named(forest, key[0], i));
                assert(key.take(1) =~= rel);
            }
        }
        if strictly_below(segs, base) && path == joined(segs) {
            let rel = segs.skip(n);
            if segs[n] == node.segment {
                assert(segs.take(n + 1) =~= segs.take(n).push(segs[n]));
                if segs.len() == n + 1 {
                    assert(segs =~= here);
                } else {
                    lemma_shared_below(forest, rel);
                    assert(rel.drop_first() =~= segs.skip(n + 1));
                }
            } else if shared(forest, rel) {
                let key = choose|key: Seq<Seq<char>>| #[trigger]
                    has_key(stem(forest), key) && strictly_below(key, rel);
                assert(exists|i: int| named(forest, key[0], i));
                assert(key.take(rel.len() as int)[0] == key[0]);
            }
        }
        if below.contains(path) {
            assert(segs.take(n + 1) == here);
            assert(segs[n] == segs.take(n + 1)[n]);
            assert(segs.take(n) =~= segs.take(n + 1).take(n));
        }
    } else {
        if strictly_below(segs, base) {
            lemma_not_shared(forest, segs.skip(n));
        }
    }
}

/// The stem that opens by itself is what every recorded key shares: a path, in normal
/// form, is on it exactly when some key lies strictly below it and every key lies on
/// one line with it.
pub proof fn law_the_stem_is_what_every_key_shares(t: TreeModel, path: Seq<char>)
    requires
        t.wf(),
    ensures
        chain(t.forest, Seq::empty()).contains(path) <==> {
            let segs = segments(path);
            &&& path == joined(segs)
            &&& segs.len() > 0
            &&& exists|key: Seq<Seq<char>>| #[trigger]
                t.keys().contains(key) && strictly_below(key, segs)
            &&& forall|key: Seq<Seq<char>>| #[trigger]
                t.keys().contains(key) ==> on_one_line(key, segs)
        },
{
    let none = Seq::<Seq<char>>::empty();
    let segs = segments(path);
    lemma_chain(t.forest, none, path);
    assert(joined(none) =~= Seq::<char>::empty());
    assert(segs.take(0) =~= none);
    assert(segs.skip(0) =~= segs);
    assert forall|key: Seq<Seq<char>>| #[trigger] t.keys().contains(key) == has_key(
        stem(t.forest),
        key,
    ) by {}
    if shared(t.forest, segs) {
        let key = choose|key: Seq<Seq<char>>| #[trigger]
            has_key(stem(t.forest), key) && strictly_below(key, segs);
        assert(t.keys().contains(key));
        assert forall|k: Seq<Seq<char>>| #[trigger] t.keys().contains(k) implies on_one_line(
            k,
            segs,
        ) by {
            assert(has_key(stem(t.forest), k));
        }
    }
    if exists|key: Seq<Seq<char>>| #[trigger]
        t.keys().contains(key) && strictly_below(key, segs) {
        let key = choose|key: Seq<Seq<char>>| #[trigger]
            t.keys().contains(key) && strictly_below(key, segs);
        assert(has_key(stem(t.forest), key));
        if forall|k: Seq<Seq<char>>| #[trigger] t.keys().contains(k) ==> on_one_line(k, segs) {
            assert forall|k: Seq<Seq<char>>| #[trigger] has_key(
                stem(t.forest),
                k,
            ) implies on_one_line(k, segs) by {
                assert(t.keys().contains(k));
            }
        }
    }
}

// ---------------------------------------------------------------------------
// The version
// ---------------------------------------------------------------------------

/// How many of the calls between the first `n + 1` states changed the tree.
pub open spec fn changes_within(states: Seq<TreeModel>, n: nat) -> nat
    decreases n,
{
    if n == 0 {
        0
    } else {
        changes_within(states, (n - 1) as nat) + (if states[n as int] == states[n - 1] {
            0nat
        } else {
            1nat
        })
    }
}

/// The version counts the calls that changed the tree, as far as it can count.
pub proof fn law_the_version_counts_the_changes(states: Seq<TreeModel>, n: nat)
    requires
        n < states.len(),
        states[0].version == 0,
        forall|i: int|
            0 < i < states.len() ==> call_between(states[i - 1], #[trigger] states[i]),
    ensures
        states[n as int].version == changes_within(states, n) % 0x1_0000_0000_0000_0000,
    decreases n,
{
    if n > 0 {
        law_the_version_counts_the_changes(states, (n - 1) as nat);
        assert(call_between(states[n - 1], states[n as int]));
    }
}

} // verus!
