//! Forgetting the longest-idle keys, and the once-a-second sweep.
use vstd::prelude::*;

use crate::app::feed::{
    elapsed, idler, latest_models, names_key, of_keys, since, window_models, Feed, FeedModel, Latest,
    EVICT_TO_KEYS, MAX_KEYS, NANOS_PER_SEC,
};
use crate::app::tree_pane::{lemma_push_to_set, PaneModel, TreePane};
use crate::history::{counted_up, History};
use crate::keyed::{KeyMap, KeySet};
use crate::text::{joined, normal_form, segments, texts};
use crate::tree::{lemma_forest_cardinality, stem, KeyTree, NodeModel, TreeModel};
use crate::tree_paths::{
    lemma_found, lemma_normal_form, lemma_paths_where, lemma_segments_joined, paths_where,
};

verus! {

/// Whether forgetting `gone` leads from one state to the other.
pub open spec fn forgets(
    feed: FeedModel,
    feed_after: FeedModel,
    pane: PaneModel,
    pane_after: PaneModel,
    gone: Set<Seq<Seq<char>>>,
) -> bool {
    &&& feed_after == feed.without(gone)
    &&& pane_after == (PaneModel { tree: pane_after.tree, ..pane }).pruned()
    &&& pane_after.tree.wf()
    &&& pane_after.tree.keys() == pane.tree.keys().difference(gone)
}

/// What keeping to the number of keys does: nothing up to the cap. Past it, the
/// longest-idle keys go, down to nine tenths of the cap: the sort is over every
/// key, and without the slack a namespace sitting at the cap would pay for it on
/// every single new key.
pub open spec fn capped(
    feed: FeedModel,
    feed_after: FeedModel,
    pane: PaneModel,
    pane_after: PaneModel,
) -> bool {
    if pane.tree.keys().len() <= MAX_KEYS {
        feed_after == feed && pane_after == pane
    } else {
        exists|gone: Set<Seq<Seq<char>>>| #[trigger]
            forgets(feed, feed_after, pane, pane_after, gone) && feed.longest_idle(
                pane.tree.keys(),
                gone,
                (pane.tree.keys().len() - EVICT_TO_KEYS) as nat,
            )
    }
}

// ---------------------------------------------------------------------------
// When each key was last heard from
// ---------------------------------------------------------------------------

/// The paths of keys.
pub open spec fn paths_of(keys: Set<Seq<Seq<char>>>) -> Set<Seq<char>> {
    Set::new(|p: Seq<char>| p == joined(segments(p)) && keys.contains(segments(p)))
}

/// One more than when a key was last heard from among the first `n` messages, nothing
/// where none of them is its.
spec fn stamp(names: Seq<Seq<char>>, latest: Seq<Latest>, n: nat, key: Seq<Seq<char>>) -> int
    decreases n,
{
    if n == 0 {
        0
    } else {
        let before = stamp(names, latest, (n - 1) as nat, key);
        if segments(names[n - 1]) == key && latest[n - 1].at + 1 > before {
            latest[n - 1].at + 1
        } else {
            before
        }
    }
}

proof fn lemma_stamp_covers(
    names: Seq<Seq<char>>,
    latest: Seq<Latest>,
    n: nat,
    key: Seq<Seq<char>>,
    i: int,
)
    requires
        0 <= i < n,
        segments(names[i]) == key,
    ensures
        stamp(names, latest, n, key) >= latest[i].at + 1,
    decreases n,
{
    if i < n - 1 {
        lemma_stamp_covers(names, latest, (n - 1) as nat, key, i);
    }
}

proof fn lemma_stamp_stems(
    names: Seq<Seq<char>>,
    latest: Seq<Latest>,
    n: nat,
    key: Seq<Seq<char>>,
) -> (i: int)
    requires
        stamp(names, latest, n, key) > 0,
    ensures
        0 <= i < n,
        segments(names[i]) == key,
        latest[i].at + 1 == stamp(names, latest, n, key),
    decreases n,
{
    let before = stamp(names, latest, (n - 1) as nat, key);
    if segments(names[n - 1]) == key && latest[n - 1].at + 1 > before {
        n - 1
    } else {
        lemma_stamp_stems(names, latest, (n - 1) as nat, key)
    }
}

/// When each key of the tree was last heard from, under its path.
fn last_heard(feed: &Feed, tree: &KeyTree) -> (heard: KeyMap<u128>)
    ensures
        heard@.dom() == paths_of(tree@.keys()),
        forall|p: Seq<char>| #[trigger]
            heard@.dom().contains(p) ==> heard@[p] == stamp(
                feed.latest.key_seq(),
                feed.latest.value_seq(),
                feed.latest.key_seq().len(),
                segments(p),
            ),
{
    let ghost names = feed.latest.key_seq();
    let ghost values = feed.latest.value_seq();
    let ghost keep = |n: NodeModel| n.is_key;
    let paths = tree.key_paths();
    let ghost all = texts(paths@);
    let mut heard: KeyMap<u128> = KeyMap::new();
    let mut i: usize = 0;
    assert(all.take(0) =~= Seq::empty());
    while i < paths.len()
        invariant
            i <= paths.len(),
            all == texts(paths@),
            heard@.dom() =~= all.take(i as int).to_set(),
            forall|p: Seq<char>| #[trigger] heard@.dom().contains(p) ==> heard@[p] == 0,
        decreases paths.len() - i,
    {
        proof {
            assert(all.take(i as int + 1) =~= all.take(i as int).push(all[i as int]));
            lemma_push_to_set(all.take(i as int), all[i as int]);
            assert(all[i as int] == paths@[i as int]@);
        }
        heard.insert(paths[i].clone(), 0);
        i += 1;
    }
    proof {
        assert(all.take(i as int) =~= all);
        assert forall|p: Seq<char>| heard@.dom().contains(p) <==> paths_of(
            tree@.keys(),
        ).contains(p) by {
            let none = Seq::<Seq<char>>::empty();
            lemma_paths_where(tree@.forest, none, keep, p);
            assert(joined(none) =~= Seq::<char>::empty());
            assert(segments(p).take(0) =~= none);
            assert(segments(p).skip(0) =~= segments(p));
            assert(all == paths_where(tree@.forest, Seq::empty(), keep));
            assert(heard@.dom().contains(p) <==> all.contains(p));
            if segments(p).len() == 0 {
                assert(!tree@.keys().contains(segments(p)));
            }
        }
        assert(heard@.dom() =~= paths_of(tree@.keys()));
    }
    let mut j: usize = 0;
    let n: usize = feed.latest.len();
    while j < n
        invariant
            j <= n,
            n == names.len(),
            names == feed.latest.key_seq(),
            values == feed.latest.value_seq(),
            values.len() == n,
            heard@.dom() == paths_of(tree@.keys()),
            forall|p: Seq<char>| #[trigger]
                heard@.dom().contains(p) ==> heard@[p] == stamp(
                    names,
                    values,
                    j as nat,
                    segments(p),
                ),
        decreases n - j,
    {
        let name = feed.latest.key_at(j);
        let at: u128 = feed.latest.value_at(j).at as u128 + 1;
        let path = normal_form(name.as_str());
        proof {
            lemma_normal_form(name@);
        }
        let ghost before = heard@;
        match heard.get(path.as_str()) {
            Some(known) => {
                if *known < at {
                    heard.insert(path, at);
                }
            },
            None => {},
        }
        j += 1;
        proof {
            assert(heard@.dom() =~= before.dom());
            assert forall|p: Seq<char>| #[trigger] heard@.dom().contains(p) implies heard@[p]
                == stamp(names, values, j as nat, segments(p)) by {
                assert(before[p] == stamp(names, values, (j - 1) as nat, segments(p)));
                if segments(p) == segments(name@) {
                    assert(p == path@);
                }
            }
        }
    }
    heard
}

/// The positions of the keys, those with the lowest stamp first.
fn by_stamp(stamps: &KeyMap<u128>) -> (order: Vec<usize>)
    ensures
        order@.len() == stamps.key_seq().len(),
        order@.no_duplicates(),
        forall|j: usize| j < stamps.key_seq().len() ==> #[trigger] order@.contains(j),
        forall|i: int|
            0 <= i < order@.len() ==> (#[trigger] order@[i]) < stamps.key_seq().len(),
        forall|i: int, j: int|
            0 <= i <= j < order@.len() ==> stamps.value_seq()[(#[trigger] order@[i]) as int]
                <= stamps.value_seq()[(#[trigger] order@[j]) as int],
{
    let n: usize = stamps.len();
    let ghost ats = stamps.value_seq();
    let mut order: Vec<usize> = Vec::new();
    let mut i: usize = 0;
    while i < n
        invariant
            i <= n,
            n == stamps.key_seq().len(),
            n == stamps.value_seq().len(),
            ats == stamps.value_seq(),
            order@.len() == i,
            order@.no_duplicates(),
            forall|j: usize| j < i ==> #[trigger] order@.contains(j),
            forall|k: int| 0 <= k < order@.len() ==> (#[trigger] order@[k]) < i,
            forall|p: int, q: int|
                0 <= p <= q < order@.len() ==> ats[(#[trigger] order@[p]) as int]
                    <= ats[(#[trigger] order@[q]) as int],
        decreases n - i,
    {
        let at: u128 = *stamps.value_at(i);
        // The first position whose key is more recent.
        let mut lo: usize = 0;
        let mut hi: usize = order.len();
        while lo < hi
            invariant
                lo <= hi <= order@.len(),
                i < n,
                n == stamps.key_seq().len(),
                n == stamps.value_seq().len(),
                ats == stamps.value_seq(),
                forall|k: int| 0 <= k < order@.len() ==> (#[trigger] order@[k]) < i,
                forall|p: int, q: int|
                    0 <= p <= q < order@.len() ==> ats[(#[trigger] order@[p]) as int]
                        <= ats[(#[trigger] order@[q]) as int],
                forall|p: int| 0 <= p < lo ==> ats[(#[trigger] order@[p]) as int] <= at,
                forall|p: int| hi <= p < order@.len() ==> ats[(#[trigger] order@[p]) as int]
                    > at,
            decreases hi - lo,
        {
            let mid: usize = lo + (hi - lo) / 2;
            let probe: u128 = *stamps.value_at(order[mid]);
            assert(probe == ats[order@[mid as int] as int]);
            if probe <= at {
                lo = mid + 1;
            } else {
                hi = mid;
            }
        }
        let ghost before = order@;
        order.insert(lo, i);
        proof {
            assert(ats[i as int] == at);
            assert forall|p: int, q: int| 0 <= p <= q < order@.len() implies ats[(
            #[trigger] order@[p]) as int] <= ats[(#[trigger] order@[q]) as int] by {
                let p0 = if p < lo {
                    p
                } else {
                    p - 1
                };
                let q0 = if q < lo {
                    q
                } else {
                    q - 1
                };
                if p != lo {
                    assert(order@[p] == before[p0]);
                }
                if q != lo {
                    assert(order@[q] == before[q0]);
                }
            }
            assert forall|p: int, q: int|
                0 <= p < order@.len() && 0 <= q < order@.len() && p != q implies order@[p]
                != order@[q] by {
                let p0 = if p < lo {
                    p
                } else {
                    p - 1
                };
                let q0 = if q < lo {
                    q
                } else {
                    q - 1
                };
                if p != lo {
                    assert(order@[p] == before[p0]);
                }
                if q != lo {
                    assert(order@[q] == before[q0]);
                }
            }
            assert forall|j: usize| j < i + 1 implies #[trigger] order@.contains(j) by {
                if j < i {
                    assert(before.contains(j));
                    let p = before.index_of(j);
                    if p < lo {
                        assert(order@[p] == j);
                    } else {
                        assert(order@[p + 1] == j);
                    }
                } else {
                    assert(order@[lo as int] == i);
                }
            }
            assert forall|k: int| 0 <= k < order@.len() implies (#[trigger] order@[k]) < i
                + 1 by {
                if k < lo {
                    assert(order@[k] == before[k]);
                } else if k > lo {
                    assert(order@[k] == before[k - 1]);
                }
            }
        }
        i += 1;
    }
    proof {
        assert forall|i: int, j: int| 0 <= i <= j < order@.len() implies
            stamps.value_seq()[(#[trigger] order@[i]) as int]
            <= stamps.value_seq()[(#[trigger] order@[j]) as int] by {
            assert(ats[order@[i] as int] <= ats[order@[j] as int]);
        }
    }
    order
}

// ---------------------------------------------------------------------------
// Forgetting
// ---------------------------------------------------------------------------

/// Drop what is stored under any name of the keys with these paths.
fn drop_keys<V>(m: &mut KeyMap<V>, gone: &KeySet)
    ensures
        final(m)@ == old(m)@.remove_keys(Set::new(|k: Seq<char>| gone@.contains(joined(segments(k))))),
{
    let names = m.keys();
    let ghost all = texts(names@);
    let ghost start = m@;
    let ghost doomed = Set::new(|k: Seq<char>| gone@.contains(joined(segments(k))));
    let mut i: usize = 0;
    proof {
        assert(all.take(0) =~= Seq::empty());
        assert(start.remove_keys(doomed.intersect(all.take(0).to_set())) =~= start);
    }
    while i < names.len()
        invariant
            i <= names.len(),
            all == texts(names@),
            doomed == Set::new(|k: Seq<char>| gone@.contains(joined(segments(k)))),
            m@ == start.remove_keys(doomed.intersect(all.take(i as int).to_set())),
        decreases names.len() - i,
    {
        let ghost name = names@[i as int]@;
        proof {
            assert(all.take(i as int + 1) =~= all.take(i as int).push(name));
            lemma_push_to_set(all.take(i as int), name);
        }
        if gone.contains(normal_form(names[i].as_str()).as_str()) {
            let _ = m.remove(names[i].as_str());
        }
        i += 1;
        assert(m@ =~= start.remove_keys(doomed.intersect(all.take(i as int).to_set())));
    }
    proof {
        assert(all.take(i as int) =~= all);
        assert forall|k: Seq<char>| start.dom().contains(k) implies all.to_set().contains(k) by {
            assert(all.contains(k));
        }
        assert(m@ =~= start.remove_keys(doomed));
    }
}

/// Drop the histories of the keys with these paths.
fn drop_histories(history: &mut History, gone: &KeySet)
    ensures
        final(history)@.rings == old(history)@.rings.remove_keys(
            Set::new(|k: Seq<char>| gone@.contains(joined(segments(k)))),
        ),
        final(history)@.evicted == old(history)@.evicted,
{
    let names = history.keys();
    let ghost all = texts(names@);
    let ghost start = history@.rings;
    let ghost doomed = Set::new(|k: Seq<char>| gone@.contains(joined(segments(k))));
    let mut i: usize = 0;
    proof {
        assert(all.take(0) =~= Seq::empty());
        assert(start.remove_keys(doomed.intersect(all.take(0).to_set())) =~= start);
    }
    while i < names.len()
        invariant
            i <= names.len(),
            all == texts(names@),
            doomed == Set::new(|k: Seq<char>| gone@.contains(joined(segments(k)))),
            history@.rings == start.remove_keys(doomed.intersect(all.take(i as int).to_set())),
            history@.evicted == old(history)@.evicted,
        decreases names.len() - i,
    {
        let ghost name = names@[i as int]@;
        proof {
            assert(all.take(i as int + 1) =~= all.take(i as int).push(name));
            lemma_push_to_set(all.take(i as int), name);
        }
        if gone.contains(normal_form(names[i].as_str()).as_str()) {
            history.remove(names[i].as_str());
        }
        i += 1;
        assert(history@.rings =~= start.remove_keys(
            doomed.intersect(all.take(i as int).to_set()),
        ));
    }
    proof {
        assert(all.take(i as int) =~= all);
        assert forall|k: Seq<char>| start.dom().contains(k) implies all.to_set().contains(k) by {
            assert(all.contains(k));
        }
        assert(history@.rings =~= start.remove_keys(doomed));
    }
}

/// Forget `count` keys, given by their paths.
fn forget_keys(feed: &mut Feed, gone: &KeySet, count: usize)
    ensures
        forall|keys: Set<Seq<Seq<char>>>|
            gone@ == #[trigger] paths_of(keys) && keys.len() == count ==> final(feed)@ == old(
                feed,
            )@.without(keys),
{
    let ghost before = feed@;
    let ghost latest0 = feed.latest@;
    let ghost rates0 = feed.rates@;
    let ghost doomed = Set::new(|k: Seq<char>| gone@.contains(joined(segments(k))));
    drop_keys(&mut feed.latest, gone);
    drop_keys(&mut feed.hz, gone);
    drop_keys(&mut feed.rates, gone);
    drop_keys(&mut feed.msg_counts, gone);
    drop_keys(&mut feed.byte_counts, gone);
    drop_histories(&mut feed.history, gone);
    feed.keys_aged_out = feed.keys_aged_out.saturating_add(count);
    proof {
        assert(latest_models(feed.latest@) =~= latest_models(latest0).remove_keys(doomed));
        assert(window_models(feed.rates@) =~= window_models(rates0).remove_keys(doomed));
        assert forall|keys: Set<Seq<Seq<char>>>|
            gone@ == #[trigger] paths_of(keys) && keys.len() == count implies feed@
            == before.without(keys) by {
            assert forall|k: Seq<char>| doomed.contains(k) <==> of_keys(keys).contains(k) by {
                lemma_normal_form(k);
            }
            assert(doomed =~= of_keys(keys));
            assert(feed@.history == before.without(keys).history);
            assert(feed@.keys_aged_out == counted_up(before.keys_aged_out, count as nat));
        }
    }
}

/// There are as many paths as keys.
proof fn lemma_as_many_paths(tree: TreeModel)
    requires
        tree.wf(),
    ensures
        paths_of(tree.keys()).finite(),
        paths_of(tree.keys()).len() == tree.keys().len(),
{
    let keys = tree.keys();
    let f = |s: Seq<Seq<char>>| joined(s);
    lemma_forest_cardinality(tree.forest);
    assert forall|s: Seq<Seq<char>>| keys.contains(s) implies segments(#[trigger] joined(s))
        == s by {
        lemma_found(stem(tree.forest), s);
        lemma_segments_joined(s);
    }
    assert(vstd::relations::injective_on(f, keys));
    assert(keys.map(f) =~= paths_of(keys)) by {
        assert forall|p: Seq<char>| paths_of(keys).contains(p) implies keys.map(f).contains(p) by {
            assert(f(segments(p)) == p);
        }
        assert forall|p: Seq<char>| keys.map(f).contains(p) implies paths_of(keys).contains(p) by {
            let s = choose|s: Seq<Seq<char>>| keys.contains(s) && f(s) == p;
            assert(segments(joined(s)) == s);
        }
    }
    vstd::set_lib::lemma_map_size(keys, paths_of(keys), f);
}

/// Drop the longest-idle keys once the tree exceeds [`MAX_KEYS`].
pub fn evict_excess_keys(feed: &mut Feed, pane: &mut TreePane)
    ensures
        capped(old(feed)@, final(feed)@, old(pane)@, final(pane)@),
        final(pane)@.tree.keys().len() <= MAX_KEYS,
{
    let count: usize = pane.key_tree.len();
    if count <= MAX_KEYS {
        return;
    }
    let drop_n: usize = count - EVICT_TO_KEYS;
    let ghost f0 = feed@;
    let ghost p0 = pane@;
    let ghost keys = pane@.tree.keys();
    let heard = last_heard(feed, &pane.key_tree);
    let total: usize = heard.positions();
    let known: usize = feed.latest.positions();
    let order = by_stamp(&heard);
    let ghost paths = heard.key_seq();
    proof {
        lemma_as_many_paths(p0.tree);
        assert(total == count);
    }
    let mut gone_paths = KeySet::new();
    let ghost mut gone = Set::<Seq<Seq<char>>>::empty();
    let mut i: usize = 0;
    proof {
        assert(paths_of(gone) =~= Set::empty());
        assert(keys.difference(gone) =~= keys);
    }
    while i < drop_n
        invariant
            i <= drop_n <= order@.len(),
            order@.len() == paths.len(),
            paths == heard.key_seq(),
            paths.no_duplicates(),
            order@.no_duplicates(),
            forall|k: int| 0 <= k < order@.len() ==> (#[trigger] order@[k]) < paths.len(),
            heard@.dom() == paths_of(keys),
            forall|k: Seq<char>| #[trigger] heard@.dom().contains(k) <==> paths.contains(k),
            gone.finite(),
            gone.len() == i,
            gone.subset_of(keys),
            forall|s: Seq<Seq<char>>| #[trigger]
                gone.contains(s) <==> exists|k: int|
                    0 <= k < i && s == segments(paths[#[trigger] order@[k] as int]),
            gone_paths@ == paths_of(gone),
            pane@ == (PaneModel { tree: pane@.tree, ..p0 }),
            pane@.tree.wf(),
            pane@.tree.keys() == keys.difference(gone),
        decreases drop_n - i,
    {
        let ghost before = gone;
        let path = heard.key_at(order[i]);
        let ghost key = segments(path@);
        proof {
            assert(paths[order@[i as int] as int] == path@);
            assert(!before.contains(key)) by {
                if before.contains(key) {
                    let k = choose|k: int|
                        0 <= k < i && key == segments(paths[#[trigger] order@[k] as int]);
                    let other = paths[order@[k] as int];
                    assert(paths.contains(other));
                    assert(heard@.dom().contains(other));
                    assert(paths_of(keys).contains(other) && paths_of(keys).contains(path@));
                    assert(other == path@);
                    assert(order@[k] != order@[i as int]);
                }
            }
        }
        let _ = pane.key_tree.remove(path.as_str());
        gone_paths.insert(path.clone());
        proof {
            gone = before.insert(key);
            assert(pane@.tree.keys() =~= keys.difference(gone));
            assert(gone_paths@ =~= paths_of(gone));
            assert forall|s: Seq<Seq<char>>| #[trigger] gone.contains(s) <==> exists|k: int|
                0 <= k < i + 1 && s == segments(paths[#[trigger] order@[k] as int]) by {
                if before.contains(s) {
                    let k = choose|k: int|
                        0 <= k < i && s == segments(paths[#[trigger] order@[k] as int]);
                    assert(0 <= k < i + 1 && s == segments(paths[order@[k] as int]));
                }
                if s == key {
                    assert(s == segments(paths[order@[i as int] as int]));
                }
            }
        }
        i += 1;
    }
    proof {
        let names = feed.latest.key_seq();
        let values = feed.latest.value_seq();
        assert forall|a: Seq<Seq<char>>, b: Seq<Seq<char>>|
            #![trigger gone.contains(a), keys.contains(b)]
            gone.contains(a) && keys.contains(b) && !gone.contains(b) implies idler(
            f0.latest,
            a,
            b,
        ) by {
            let p = choose|p: int| 0 <= p < i && a == segments(paths[#[trigger] order@[p] as int]);
            let pa = paths[order@[p] as int];
            assert(paths.contains(pa));
            assert(heard@.dom().contains(pa));
            lemma_found(stem(p0.tree.forest), b);
            lemma_segments_joined(b);
            assert(heard@.dom().contains(joined(b)));
            let at = paths.index_of(joined(b));
            assert(order@.contains(at as usize));
            let q = order@.index_of(at as usize);
            assert(q >= i) by {
                if q < i {
                    assert(b == segments(paths[order@[q] as int]));
                }
            }
            assert(heard@[pa] == heard.value_seq()[order@[p] as int]);
            assert(heard@[joined(b)] == heard.value_seq()[order@[q] as int]);
            assert forall|x: Seq<char>| #[trigger] names_key(f0.latest, x, a) implies exists|
                y: Seq<char>,
            | #[trigger] names_key(f0.latest, y, b) && f0.latest[x].at <= f0.latest[y].at by {
                assert(feed.latest@.dom().contains(x));
                let ix = names.index_of(x);
                lemma_stamp_covers(names, values, names.len(), a, ix);
                let iy = lemma_stamp_stems(names, values, names.len(), b);
                let y = names[iy];
                assert(names.contains(y));
                assert(feed.latest@.dom().contains(y));
                assert(feed.latest@[x] == values[ix]);
                assert(feed.latest@[y] == values[iy]);
                assert(names_key(f0.latest, y, b));
            }
        }
        assert(f0.longest_idle(keys, gone, drop_n as nat));
        assert(gone_paths@ == paths_of(gone));
    }
    forget_keys(feed, &gone_paths, drop_n);
    pane.prune_expansion();
    proof {
        assert(feed@ == f0.without(gone));
        assert(forgets(f0, feed@, p0, pane@, gone));
        lemma_rest_after(keys, gone);
    }
}

/// What is left of a set after some of its members went.
proof fn lemma_rest_after(all: Set<Seq<Seq<char>>>, gone: Set<Seq<Seq<char>>>)
    requires
        all.finite(),
        gone.subset_of(all),
    ensures
        gone.finite(),
        all.difference(gone).finite(),
        all.difference(gone).len() == all.len() - gone.len(),
{
    vstd::set_lib::lemma_set_subset_finite(all, gone);
    let rest = all.difference(gone);
    assert(all =~= rest + gone);
    vstd::set_lib::lemma_set_disjoint_lens(rest, gone);
}

/// What the once-a-second sweep does: nothing within a second of the last one.
/// Otherwise excess keys go, and the second is closed.
pub open spec fn swept(
    feed: FeedModel,
    feed_after: FeedModel,
    pane: PaneModel,
    pane_after: PaneModel,
    now: u64,
) -> bool {
    let nanos = since(feed.last_hz_update, now);
    if nanos < NANOS_PER_SEC {
        feed_after == feed && pane_after == pane
    } else {
        exists|mid: FeedModel| #[trigger]
            capped(feed, mid, pane, pane_after) && feed_after == mid.closed_second(nanos, now)
    }
}

/// The once-a-second sweep.
pub fn update_hz(feed: &mut Feed, pane: &mut TreePane, now: u64)
    ensures
        swept(old(feed)@, final(feed)@, old(pane)@, final(pane)@, now),
{
    let nanos: u64 = elapsed(feed.last_hz_update, now);
    if nanos < NANOS_PER_SEC {
        return;
    }
    evict_excess_keys(feed, pane);
    let ghost mid = feed@;
    feed.close_second(nanos, now);
    assert(capped(old(feed)@, mid, old(pane)@, pane@));
}

/// Up to the cap nothing is forgotten, however long it has been quiet.
pub proof fn law_keys_under_the_cap_are_never_evicted(
    feed: FeedModel,
    feed_after: FeedModel,
    pane: PaneModel,
    pane_after: PaneModel,
)
    requires
        capped(feed, feed_after, pane, pane_after),
        pane.tree.keys().len() <= MAX_KEYS,
    ensures
        feed_after == feed,
        pane_after == pane,
{
}

/// Whatever is known of the keys, the sweep leaves no more of them than the cap allows,
/// and past the cap it leaves nine tenths of it.
pub proof fn law_the_cap_bounds_the_keys(
    feed: FeedModel,
    feed_after: FeedModel,
    pane: PaneModel,
    pane_after: PaneModel,
)
    requires
        capped(feed, feed_after, pane, pane_after),
        pane.tree.wf(),
    ensures
        pane_after.tree.keys().len() <= MAX_KEYS,
        pane.tree.keys().len() > MAX_KEYS ==> pane_after.tree.keys().len() == EVICT_TO_KEYS,
{
    lemma_forest_cardinality(pane.tree.forest);
    if pane.tree.keys().len() > MAX_KEYS {
        let gone = choose|gone: Set<Seq<Seq<char>>>| #[trigger]
            forgets(feed, feed_after, pane, pane_after, gone) && feed.longest_idle(
                pane.tree.keys(),
                gone,
                (pane.tree.keys().len() - EVICT_TO_KEYS) as nat,
            );
        assert(forgets(feed, feed_after, pane, pane_after, gone));
        lemma_rest_after(pane.tree.keys(), gone);
    }
}

/// A key is forgotten only where every key that stays was heard from no earlier, and
/// it is then forgotten altogether: its message, its history, its counts and its rate,
/// under whatever name they are kept.
pub proof fn law_the_longest_idle_go_first(
    feed: FeedModel,
    feed_after: FeedModel,
    pane: PaneModel,
    pane_after: PaneModel,
    lost: Seq<Seq<char>>,
    kept: Seq<Seq<char>>,
    name: Seq<char>,
)
    requires
        capped(feed, feed_after, pane, pane_after),
        pane.tree.keys().contains(lost) && !pane_after.tree.keys().contains(lost),
        pane_after.tree.keys().contains(kept),
        segments(name) == lost,
    ensures
        pane.tree.keys().contains(kept),
        idler(feed.latest, lost, kept),
        !feed_after.latest.dom().contains(name),
        !feed_after.history.rings.dom().contains(name),
        !feed_after.msg_counts.dom().contains(name),
        !feed_after.byte_counts.dom().contains(name),
        !feed_after.hz.dom().contains(name),
        !feed_after.rates.dom().contains(name),
{
    let gone = choose|gone: Set<Seq<Seq<char>>>| #[trigger]
        forgets(feed, feed_after, pane, pane_after, gone) && feed.longest_idle(
            pane.tree.keys(),
            gone,
            (pane.tree.keys().len() - EVICT_TO_KEYS) as nat,
        );
    assert(forgets(feed, feed_after, pane, pane_after, gone));
    assert(gone.contains(lost));
    assert(of_keys(gone).contains(name));
}

} // verus!
