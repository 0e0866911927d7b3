//! What a history holds, in terms of the messages that were recorded in it.
use vstd::prelude::*;

use crate::app::feed::recorded;
use crate::history::{
    budgeted, counted_up, entry_of, held_rings, largest, law_removing_a_key_reclaims_its_bytes,
    law_within_the_budget_one_ring_changes, lemma_held_total, lemma_total_bound, pushed, ring_at, ring_bytes, shed, sheds, total_of,
    EntryModel, HistoryModel, RingMap, BUDGET_BYTES, EVICT_TO_BYTES,
};
use crate::message::MessageModel;

verus! {

/// A message, and when it was recorded.
pub struct Noted {
    pub message: MessageModel,
    pub at: u64,
}

/// Whether recording the messages, one after another, leads through the states.
pub open spec fn records(states: Seq<HistoryModel>, notes: Seq<Noted>) -> bool {
    &&& states.len() == notes.len() + 1
    &&& forall|i: int|
        0 <= i < notes.len() ==> recorded(
            #[trigger] states[i],
            notes[i].message,
            notes[i].at,
            states[i + 1],
        )
}

/// The messages on a key, in the order in which they came.
pub open spec fn noted_on(notes: Seq<Noted>, key: Seq<char>) -> Seq<Noted> {
    notes.filter(|n: Noted| n.message.key_expr == key)
}

/// What the messages count for: each its length on the wire, up to 64 KiB.
pub open spec fn weight(notes: Seq<Noted>) -> nat
    decreases notes.len(),
{
    if notes.len() == 0 {
        0
    } else {
        let n = notes.last().message.payload_bytes as nat;
        weight(notes.drop_last()) + (if n <= 65536 {
            n
        } else {
            65536
        })
    }
}

/// Whether an entry keeps what there is to keep of a message.
pub open spec fn keeps(e: EntryModel, n: Noted) -> bool {
    &&& e.view == n.message.payload.view
    &&& e.raw_len == n.message.payload_bytes
    &&& e.truncated == (n.message.payload.len > 65536)
    &&& e.encoding == n.message.encoding
    &&& e.timestamp == n.message.timestamp
    &&& e.kind == n.message.kind
    &&& e.received == n.at
}

/// Whether a ring holds the newest of the messages, the newest first: up to 128 of them.
pub open spec fn holds_newest(ring: Seq<EntryModel>, notes: Seq<Noted>) -> bool {
    &&& ring.len() == (if notes.len() <= 128 {
        notes.len()
    } else {
        128
    })
    &&& forall|j: int|
        0 <= j < ring.len() ==> keeps(#[trigger] ring[j], notes[notes.len() - 1 - j])
}

proof fn lemma_ring_grows(ring: Seq<EntryModel>, notes: Seq<Noted>, n: Noted)
    requires
        holds_newest(ring, notes),
    ensures
        holds_newest(pushed(ring, entry_of(n.message, n.at)), notes.push(n)),
{
    let e = entry_of(n.message, n.at);
    let after = pushed(ring, e);
    let all = notes.push(n);
    assert forall|j: int| 0 <= j < after.len() implies keeps(
        #[trigger] after[j],
        all[all.len() - 1 - j],
    ) by {
        if j > 0 {
            assert(after[j] == ring[j - 1]);
            assert(all[all.len() - 1 - j] == notes[notes.len() - 1 - (j - 1)]);
        }
    }
}

/// While the budget has room, the ring of every key holds the newest messages on exactly
/// that key, newest first, up to 128 of them, each with what there is to keep of it.
/// Nothing is evicted.
pub proof fn law_a_ring_holds_the_newest_messages_of_its_key(
    states: Seq<HistoryModel>,
    notes: Seq<Noted>,
    key: Seq<char>,
)
    requires
        records(states, notes),
        states[0].rings == RingMap::empty(),
        weight(notes) <= 33_554_432,
    ensures
        holds_newest(ring_at(states.last().rings, key), noted_on(notes, key)),
        states.last().rings.dom().contains(key) <==> noted_on(notes, key).len() > 0,
        states.last().evicted == states[0].evicted,
        states.last().rings.dom().finite(),
        total_of(states.last().rings) <= weight(notes),
    decreases notes.len(),
{
    let p = |n: Noted| n.message.key_expr == key;
    reveal(Seq::filter);
    if notes.len() > 0 {
        let n = notes.len() - 1;
        let before = states.drop_last();
        let first = notes.drop_last();
        assert forall|i: int| 0 <= i < first.len() implies recorded(
            #[trigger] before[i],
            first[i].message,
            first[i].at,
            before[i + 1],
        ) by {
            assert(recorded(states[i], notes[i].message, notes[i].at, states[i + 1]));
        }
        assert(before.last() == states[n]);
        assert(before[0] == states[0]);
        law_a_ring_holds_the_newest_messages_of_its_key(before, first, key);
        assert(recorded(states[n], notes[n].message, notes[n].at, states[n + 1]));
        let msg = notes[n].message;
        let e = entry_of(msg, notes[n].at);
        law_within_the_budget_one_ring_changes(states[n], states[n + 1], msg.key_expr, e);
        assert(states.last() == states[n + 1]);
        if msg.key_expr == key {
            lemma_ring_grows(ring_at(states[n].rings, key), noted_on(first, key), notes[n]);
        }
    } else {
        assert(total_of(states[0].rings) == 0);
    }
}

// ---------------------------------------------------------------------------
// Over the budget
// ---------------------------------------------------------------------------

/// Whether a ring is another without some of its oldest entries.
pub open spec fn newest_of(after: Seq<EntryModel>, before: Seq<EntryModel>) -> bool {
    after.len() <= before.len() && after == before.take(after.len() as int)
}

/// Whether what was taken from a key was taken while no key held more: with the last
/// entry that it lost, it holds at least as much as any other does.
pub open spec fn gave_most(before: RingMap, after: RingMap, k: Seq<char>) -> bool {
    after[k].len() < before[k].len() ==> forall|j: Seq<char>| #[trigger]
        before.dom().contains(j) ==> ring_bytes(after[j]) <= ring_bytes(
            before[k].take(after[k].len() as int + 1),
        )
}

proof fn lemma_shed(before: RingMap, after: RingMap, n: nat)
    requires
        before.dom().finite(),
        shed(before, after, n),
    ensures
        after.dom() == before.dom(),
        forall|k: Seq<char>| #[trigger]
            before.dom().contains(k) ==> newest_of(after[k], before[k]) && gave_most(
                before,
                after,
                k,
            ),
    decreases n,
{
    if n > 0 {
        let fewer = (n - 1) as nat;
        let (mid, k) = choose|mid: RingMap, k: Seq<char>|
            shed(before, mid, fewer) && #[trigger] sheds(mid, after, k);
        lemma_shed(before, mid, fewer);
        assert(after.dom() =~= before.dom());
        assert(before.dom().contains(k));
        assert(newest_of(mid[k], before[k]));
        lemma_something_to_shed(mid, k);
        lemma_bytes_up(mid, after, k);
        assert forall|i: Seq<char>| #[trigger] before.dom().contains(i) implies newest_of(
            after[i],
            before[i],
        ) && gave_most(before, after, i) by {
            assert(newest_of(mid[i], before[i]));
            if i == k {
                assert(after[k] =~= before[k].take(after[k].len() as int));
                assert(before[k].take(after[k].len() as int + 1) =~= mid[k]);
                assert forall|j: Seq<char>| #[trigger] before.dom().contains(j) implies ring_bytes(
                    after[j],
                ) <= ring_bytes(before[k].take(after[k].len() as int + 1)) by {
                    assert(mid.dom().contains(j));
                }
            } else {
                if after[i].len() < before[i].len() {
                    assert(gave_most(before, mid, i));
                    assert forall|j: Seq<char>| #[trigger]
                        before.dom().contains(j) implies ring_bytes(after[j]) <= ring_bytes(
                        before[i].take(after[i].len() as int + 1),
                    ) by {
                        assert(ring_bytes(after[j]) <= ring_bytes(mid[j]));
                    }
                }
            }
        }
    } else {
        assert forall|k: Seq<char>| #[trigger] before.dom().contains(k) implies newest_of(
            after[k],
            before[k],
        ) by {
            assert(before[k].take(before[k].len() as int) =~= before[k]);
        }
    }
}

proof fn lemma_bytes_up(mid: RingMap, after: RingMap, k: Seq<char>)
    requires
        sheds(mid, after, k),
        mid[k].len() > 0,
    ensures
        forall|j: Seq<char>| mid.dom().contains(j) ==> ring_bytes(#[trigger] after[j])
            <= ring_bytes(mid[j]),
{
}

/// While there is something left to shed, the largest holder holds something.
proof fn lemma_something_to_shed(mid: RingMap, k: Seq<char>)
    requires
        mid.dom().finite(),
        largest(mid, k),
        total_of(mid) > EVICT_TO_BYTES,
    ensures
        mid[k].len() > 0,
{
    if mid[k].len() == 0 {
        lemma_total_bound(mid, 0);
        assert(mid.dom().len() * 0 == 0) by (nonlinear_arith);
    }
}

/// Past the budget the oldest entries of the keys that hold the most go, until the total
/// is at most nine tenths of it. What a key still has are its newest entries. A key lost
/// something only while no key held more, and one that has nothing left is dropped.
pub proof fn law_the_oldest_of_the_largest_go(
    before: RingMap,
    after: RingMap,
    evicted: usize,
    evicted_after: usize,
    k: Seq<char>,
)
    requires
        before.dom().finite(),
        budgeted(before, after, evicted, evicted_after),
        before.dom().contains(k),
        before[k].len() > 0,
    ensures
        newest_of(ring_at(after, k), before[k]),
        after.dom().contains(k) ==> after[k].len() > 0,
        after.dom().subset_of(before.dom()),
        total_of(before) <= 33_554_432 ==> ring_at(after, k) == before[k],
        total_of(before) > 33_554_432 ==> total_of(after) <= 30_198_988,
        ring_at(after, k).len() < before[k].len() ==> forall|j: Seq<char>| #[trigger]
            before.dom().contains(j) ==> ring_bytes(ring_at(after, j)) <= ring_bytes(
                before[k].take(ring_at(after, k).len() as int + 1),
            ),
{
    assert(before[k].take(before[k].len() as int) =~= before[k]);
    if total_of(before) > BUDGET_BYTES {
        let (mid, n) = choose|mid: RingMap, n: nat| #[trigger]
            shed(before, mid, n) && total_of(mid) <= EVICT_TO_BYTES && after == held_rings(mid)
                && evicted_after == counted_up(evicted, n);
        lemma_shed(before, mid, n);
        lemma_held_total(mid);
        assert forall|j: Seq<char>| #[trigger] before.dom().contains(j) implies ring_at(after, j)
            == mid[j] by {
            assert(mid.dom().contains(j));
            if mid[j].len() == 0 {
                assert(mid[j] =~= Seq::<EntryModel>::empty());
            }
        }
        assert(newest_of(mid[k], before[k]) && gave_most(before, mid, k));
    }
}

/// An entry counts for its length on the wire up to 64 KiB, a ring for its entries, and
/// all rings for each of them.
pub proof fn law_an_entry_counts_for_its_length(
    e: EntryModel,
    ring: Seq<EntryModel>,
    m: RingMap,
    k: Seq<char>,
)
    requires
        m.dom().finite(),
        m.dom().contains(k),
    ensures
        ring_bytes(ring.push(e)) == ring_bytes(ring) + (if e.raw_len <= 65536 {
            e.raw_len as nat
        } else {
            65536
        }),
        ring_bytes(Seq::empty()) == 0,
        total_of(m) == ring_bytes(m[k]) + total_of(m.remove(k)),
        total_of(RingMap::empty()) == 0,
{
    assert(ring.push(e).drop_last() =~= ring);
    law_removing_a_key_reclaims_its_bytes(m, k);
}

} // verus!
