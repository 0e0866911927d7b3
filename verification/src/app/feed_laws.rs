//! What the rates say, in terms of the messages that arrived since the last sweep.
use vstd::prelude::*;

use crate::app::feed::{names_key, of_keys, FeedModel, KeyFreshness};
use crate::app::rate::WindowModel;
use crate::app::sweep::{
    capped, forgets, law_the_cap_bounds_the_keys, law_the_longest_idle_go_first, swept,
};
use crate::app::tree_pane::PaneModel;
use crate::message::MessageModel;
use crate::text::segments;

verus! {

/// Whether the arrival of a message leads from one state to the other.
pub open spec fn arrives(before: FeedModel, msg: MessageModel, after: FeedModel) -> bool {
    exists|now: u64| after == #[trigger] before.received(msg, now, after.history)
}

/// Whether the messages, arriving one after another, lead through the states.
pub open spec fn hears(states: Seq<FeedModel>, msgs: Seq<MessageModel>) -> bool {
    &&& states.len() == msgs.len() + 1
    &&& forall|i: int|
        0 <= i < msgs.len() ==> arrives(#[trigger] states[i], msgs[i], states[i + 1])
}

/// How many of the messages are on a key.
pub open spec fn messages_on(msgs: Seq<MessageModel>, key: Seq<char>) -> nat
    decreases msgs.len(),
{
    if msgs.len() == 0 {
        0
    } else {
        messages_on(msgs.drop_last(), key) + (if msgs.last().key_expr == key {
            1nat
        } else {
            0nat
        })
    }
}

/// What a message carries: its payload, and what is attached to it.
pub open spec fn carried(msg: MessageModel) -> nat {
    match msg.attachment_bytes {
        Some(n) => msg.payload_bytes as nat + n as nat,
        None => msg.payload_bytes as nat,
    }
}

/// What the messages on a key carry together.
pub open spec fn bytes_on(msgs: Seq<MessageModel>, key: Seq<char>) -> nat
    decreases msgs.len(),
{
    if msgs.len() == 0 {
        0
    } else {
        bytes_on(msgs.drop_last(), key) + (if msgs.last().key_expr == key {
            carried(msgs.last())
        } else {
            0nat
        })
    }
}

/// What all messages carry together.
pub open spec fn bytes_in_all(msgs: Seq<MessageModel>) -> nat
    decreases msgs.len(),
{
    if msgs.len() == 0 {
        0
    } else {
        bytes_in_all(msgs.drop_last()) + carried(msgs.last())
    }
}

/// A number, up to a limit.
pub open spec fn up_to(n: nat, limit: nat) -> nat {
    if n <= limit {
        n
    } else {
        limit
    }
}

/// The windows hold at least one bucket each, and no key has a rate without one.
pub open spec fn in_step(f: FeedModel) -> bool {
    &&& f.hz.dom().subset_of(f.rates.dom())
    &&& f.total_rate.cap > 0
    &&& forall|k: Seq<char>| f.rates.dom().contains(k) ==> (#[trigger] f.rates[k]).cap > 0
}

/// Nothing has been counted since the last sweep.
pub open spec fn uncounted(f: FeedModel) -> bool {
    &&& forall|k: Seq<char>| !f.msg_counts.dom().contains(k)
    &&& forall|k: Seq<char>| !f.byte_counts.dom().contains(k)
    &&& f.total_msg_count == 0
    &&& f.total_byte_count == 0
}

/// The rates stand in step from the start, and stay so whatever arrives, is forgotten or
/// is swept. A sweep starts counting anew.
pub proof fn law_rates_stay_in_step(
    f: FeedModel,
    msg: MessageModel,
    after: FeedModel,
    gone: Set<Seq<Seq<char>>>,
    nanos: u64,
    now: u64,
)
    ensures
        in_step(FeedModel::fresh(now)),
        uncounted(FeedModel::fresh(now)),
        in_step(f) && arrives(f, msg, after) ==> in_step(after),
        in_step(f) ==> in_step(f.without(gone)),
        in_step(f) ==> in_step(f.closed_second(nanos, now)),
        uncounted(f.closed_second(nanos, now)),
{
}

/// What is counted after the messages.
proof fn lemma_counted(states: Seq<FeedModel>, msgs: Seq<MessageModel>, key: Seq<char>)
    requires
        hears(states, msgs),
        uncounted(states[0]),
    ensures
        ({
            let f = states.last();
            &&& f.msg_counts.dom().contains(key) <==> messages_on(msgs, key) > 0
            &&& f.byte_counts.dom().contains(key) <==> messages_on(msgs, key) > 0
            &&& f.msg_counts.dom().contains(key) ==> f.msg_counts[key] == up_to(
                messages_on(msgs, key),
                u32::MAX as nat,
            )
            &&& f.byte_counts.dom().contains(key) ==> f.byte_counts[key] == up_to(
                bytes_on(msgs, key),
                u64::MAX as nat,
            )
            &&& messages_on(msgs, key) == 0 ==> bytes_on(msgs, key) == 0
            &&& f.total_msg_count == up_to(msgs.len(), u32::MAX as nat)
            &&& f.total_byte_count == up_to(bytes_in_all(msgs), u64::MAX as nat)
            &&& f.hz == states[0].hz
            &&& f.rates == states[0].rates
            &&& f.total_rate == states[0].total_rate
            &&& f.last_hz_update == states[0].last_hz_update
        }),
    decreases msgs.len(),
{
    if msgs.len() > 0 {
        let n = msgs.len() - 1;
        let before = states.drop_last();
        let first = msgs.drop_last();
        assert forall|i: int| 0 <= i < first.len() implies arrives(
            #[trigger] before[i],
            first[i],
            before[i + 1],
        ) by {
            assert(arrives(states[i], msgs[i], states[i + 1]));
        }
        lemma_counted(before, first, key);
        assert(before.last() == states[n]);
        assert(before[0] == states[0]);
        assert(arrives(states[n], msgs[n], states[n + 1]));
        assert(states.last() == states[n + 1]);
        assert(msgs.last() == msgs[n]);
    }
}

/// When a sweep closes a second, the rate of a key that still has one counts the
/// messages that arrived on exactly that key since the sweep before, and its newest
/// bucket is what they carried; messages on other keys do not matter. The total counts
/// all of them. A key that carried something has a rate unless it was forgotten.
pub proof fn law_a_rate_counts_the_messages_of_its_key(
    states: Seq<FeedModel>,
    msgs: Seq<MessageModel>,
    after: FeedModel,
    pane: PaneModel,
    pane_after: PaneModel,
    now: u64,
    key: Seq<char>,
)
    requires
        hears(states, msgs),
        uncounted(states[0]),
        in_step(states[0]),
        now - states[0].last_hz_update >= 1_000_000_000,
        swept(states.last(), after, pane, pane_after, now),
    ensures
        after.hz.dom().contains(key) <==> after.rates.dom().contains(key),
        after.hz.dom().contains(key) ==> {
            &&& after.hz[key].messages == up_to(messages_on(msgs, key), u32::MAX as nat)
            &&& after.hz[key].nanos == now - states[0].last_hz_update
            &&& after.rates[key].samples.len() > 0
            &&& after.rates[key].samples.last() == up_to(bytes_on(msgs, key), u64::MAX as nat)
        },
        after.total_hz.messages == up_to(msgs.len(), u32::MAX as nat),
        after.total_hz.nanos == now - states[0].last_hz_update,
        after.total_rate.samples.len() > 0,
        after.total_rate.samples.last() == up_to(bytes_in_all(msgs), u64::MAX as nat),
        bytes_on(msgs, key) > 0 && pane.tree.keys().len() <= 10_000 ==> after.hz.dom().contains(
            key,
        ),
        after.last_hz_update == now,
        uncounted(after),
{
    let f = states.last();
    lemma_counted(states, msgs, key);
    let nanos = (now - f.last_hz_update) as u64;
    let mid = choose|mid: FeedModel| #[trigger]
        capped(f, mid, pane, pane_after) && after == mid.closed_second(nanos, now);
    assert(capped(f, mid, pane, pane_after) && after == mid.closed_second(nanos, now));
    if pane.tree.keys().len() > 10_000 {
        let gone = choose|gone: Set<Seq<Seq<char>>>| #[trigger]
            forgets(f, mid, pane, pane_after, gone) && f.longest_idle(
                pane.tree.keys(),
                gone,
                (pane.tree.keys().len() - crate::app::feed::EVICT_TO_KEYS) as nat,
            );
        assert(mid == f.without(gone));
        if of_keys(gone).contains(key) {
            assert(!mid.swept(key));
        }
    }
    lemma_pushed(mid.total_rate, mid.total_byte_count);
    if mid.swept(key) {
        lemma_pushed(
            crate::app::feed::window_at(mid.rates, key),
            crate::app::feed::bytes_at(mid.byte_counts, key),
        );
    }
}

/// What is counted on a key settles its rate: it is that count over the time that went by,
/// and the same in two feeds that counted the same on it, whatever they counted on others.
pub proof fn law_other_keys_do_not_change_a_rate(
    f: FeedModel,
    g: FeedModel,
    key: Seq<char>,
    nanos: u64,
    now: u64,
)
    requires
        in_step(f),
        in_step(g),
        f.msg_counts.dom().contains(key),
        f.byte_counts.dom().contains(key),
        f.byte_counts[key] > 0,
        g.msg_counts.dom().contains(key),
        g.byte_counts.dom().contains(key),
        g.msg_counts[key] == f.msg_counts[key],
        g.byte_counts[key] == f.byte_counts[key],
    ensures
        ({
            let a = f.closed_second(nanos, now);
            let b = g.closed_second(nanos, now);
            &&& a.hz.dom().contains(key) && b.hz.dom().contains(key)
            &&& a.hz[key].messages == f.msg_counts[key] && a.hz[key].nanos == nanos
            &&& a.hz[key] == b.hz[key]
            &&& a.rates[key].samples.last() == f.byte_counts[key]
            &&& b.rates[key].samples.last() == f.byte_counts[key]
        }),
{
    lemma_pushed(crate::app::feed::window_at(f.rates, key), f.byte_counts[key]);
    lemma_pushed(crate::app::feed::window_at(g.rates, key), g.byte_counts[key]);
}

proof fn lemma_pushed(w: WindowModel, bytes: u64)
    requires
        w.cap > 0,
    ensures
        w.pushed(bytes).samples.len() > 0,
        w.pushed(bytes).samples.last() == bytes,
{
}

/// How the messages of several keys add up.
pub open spec fn messages_on_all(msgs: Seq<MessageModel>, keys: Seq<Seq<char>>) -> nat
    decreases keys.len(),
{
    if keys.len() == 0 {
        0
    } else {
        messages_on_all(msgs, keys.drop_last()) + messages_on(msgs, keys.last())
    }
}

/// The messages of the keys add up to all messages where the keys are all there are,
/// each once.
proof fn lemma_messages_add_up(msgs: Seq<MessageModel>, keys: Seq<Seq<char>>)
    requires
        keys.no_duplicates(),
        forall|i: int| 0 <= i < msgs.len() ==> keys.contains((#[trigger] msgs[i]).key_expr),
    ensures
        messages_on_all(msgs, keys) == msgs.len(),
    decreases msgs.len(),
{
    if msgs.len() == 0 {
        lemma_no_messages(msgs, keys);
    } else {
        let first = msgs.drop_last();
        assert forall|i: int| 0 <= i < first.len() implies keys.contains(
            (#[trigger] first[i]).key_expr,
        ) by {
            assert(first[i] == msgs[i]);
        }
        lemma_messages_add_up(first, keys);
        assert(keys.contains(msgs[msgs.len() - 1].key_expr));
        lemma_one_more(msgs, keys);
    }
}

proof fn lemma_no_messages(msgs: Seq<MessageModel>, keys: Seq<Seq<char>>)
    requires
        msgs.len() == 0,
    ensures
        messages_on_all(msgs, keys) == 0,
    decreases keys.len(),
{
    if keys.len() > 0 {
        lemma_no_messages(msgs, keys.drop_last());
    }
}

proof fn lemma_one_more(msgs: Seq<MessageModel>, keys: Seq<Seq<char>>)
    requires
        msgs.len() > 0,
        keys.no_duplicates(),
    ensures
        messages_on_all(msgs, keys) == messages_on_all(msgs.drop_last(), keys) + (
        if keys.contains(msgs.last().key_expr) {
            1nat
        } else {
            0nat
        }),
    decreases keys.len(),
{
    if keys.len() > 0 {
        let rest = keys.drop_last();
        let k = msgs.last().key_expr;
        lemma_one_more(msgs, rest);
        if rest.contains(k) {
            let i = rest.index_of(k);
            assert(keys[i] == k);
            assert(keys[i] != keys[keys.len() - 1]);
        }
        if keys.contains(k) {
            let i = keys.index_of(k);
            if i < rest.len() {
                assert(rest[i] == k);
            }
        }
    }
}

/// How the rates of several keys add up.
pub open spec fn rates_of_all(f: FeedModel, keys: Seq<Seq<char>>) -> nat
    decreases keys.len(),
{
    if keys.len() == 0 {
        0
    } else {
        rates_of_all(f, keys.drop_last()) + f.hz[keys.last()].messages as nat
    }
}

/// The rates of the keys that sent something add up to the total rate, while nothing is
/// forgotten and no count is at its limit.
pub proof fn law_the_rates_of_the_keys_add_up(
    states: Seq<FeedModel>,
    msgs: Seq<MessageModel>,
    after: FeedModel,
    pane: PaneModel,
    pane_after: PaneModel,
    now: u64,
    keys: Seq<Seq<char>>,
)
    requires
        hears(states, msgs),
        uncounted(states[0]),
        in_step(states[0]),
        now - states[0].last_hz_update >= 1_000_000_000,
        swept(states.last(), after, pane, pane_after, now),
        pane.tree.keys().len() <= 10_000,
        msgs.len() <= u32::MAX,
        keys.no_duplicates(),
        forall|k: Seq<char>| #[trigger] keys.contains(k) ==> bytes_on(msgs, k) > 0,
        forall|i: int| 0 <= i < msgs.len() ==> keys.contains((#[trigger] msgs[i]).key_expr),
    ensures
        rates_of_all(after, keys) == after.total_hz.messages,
{
    lemma_messages_add_up(msgs, keys);
    law_a_rate_counts_the_messages_of_its_key(
        states,
        msgs,
        after,
        pane,
        pane_after,
        now,
        Seq::empty(),
    );
    assert forall|i: int| 0 <= i < keys.len() implies after.hz[#[trigger] keys[i]].messages
        == messages_on(msgs, keys[i]) by {
        assert(keys.contains(keys[i]));
        lemma_no_more_than_all(msgs, keys[i]);
        law_a_rate_counts_the_messages_of_its_key(
            states,
            msgs,
            after,
            pane,
            pane_after,
            now,
            keys[i],
        );
    }
    lemma_rates_add_up(after, msgs, keys);
}

proof fn lemma_no_more_than_all(msgs: Seq<MessageModel>, key: Seq<char>)
    ensures
        messages_on(msgs, key) <= msgs.len(),
    decreases msgs.len(),
{
    if msgs.len() > 0 {
        lemma_no_more_than_all(msgs.drop_last(), key);
    }
}

proof fn lemma_rates_add_up(f: FeedModel, msgs: Seq<MessageModel>, keys: Seq<Seq<char>>)
    requires
        forall|i: int|
            0 <= i < keys.len() ==> f.hz[#[trigger] keys[i]].messages == messages_on(msgs, keys[i]),
    ensures
        rates_of_all(f, keys) == messages_on_all(msgs, keys),
    decreases keys.len(),
{
    if keys.len() > 0 {
        let rest = keys.drop_last();
        assert forall|i: int| 0 <= i < rest.len() implies f.hz[#[trigger] rest[i]].messages
            == messages_on(msgs, rest[i]) by {
            assert(rest[i] == keys[i]);
        }
        lemma_rates_add_up(f, msgs, rest);
        assert(f.hz[keys[keys.len() - 1]].messages == messages_on(msgs, keys[keys.len() - 1]));
    }
}

// ---------------------------------------------------------------------------
// Which keys are forgotten
// ---------------------------------------------------------------------------

/// Past ten thousand keys the sweep leaves nine thousand. A key that is forgotten was
/// heard from no later than any key that stays: whatever message there was of it, there
/// is one of the other that is no older. Up to ten thousand nothing is forgotten.
pub proof fn law_the_longest_silent_are_forgotten(
    feed: FeedModel,
    feed_after: FeedModel,
    pane: PaneModel,
    pane_after: PaneModel,
    lost: Seq<char>,
    kept: Seq<Seq<char>>,
)
    requires
        capped(feed, feed_after, pane, pane_after),
        pane.tree.wf(),
    ensures
        pane.tree.keys().len() <= 10_000 ==> feed_after == feed && pane_after == pane,
        pane.tree.keys().len() > 10_000 ==> pane_after.tree.keys().len() == 9_000,
        feed.latest.dom().contains(lost) && pane.tree.keys().contains(segments(lost))
            && !pane_after.tree.keys().contains(segments(lost)) && pane_after.tree.keys().contains(
            kept,
        ) ==> exists|y: Seq<char>|
            {
                &&& #[trigger] feed.latest.dom().contains(y)
                &&& segments(y) == kept
                &&& feed.latest[lost].at <= feed.latest[y].at
            },
{
    law_the_cap_bounds_the_keys(feed, feed_after, pane, pane_after);
    if feed.latest.dom().contains(lost) && pane.tree.keys().contains(segments(lost))
        && !pane_after.tree.keys().contains(segments(lost)) && pane_after.tree.keys().contains(
        kept,
    ) {
        law_the_longest_idle_go_first(
            feed,
            feed_after,
            pane,
            pane_after,
            segments(lost),
            kept,
            lost,
        );
        assert(names_key(feed.latest, lost, segments(lost)));
        let y = choose|y: Seq<char>| #[trigger]
            names_key(feed.latest, y, kept) && feed.latest[lost].at <= feed.latest[y].at;
        assert(feed.latest.dom().contains(y));
    }
}

/// A key is live for five minutes after its newest message and idle from then on, and has
/// no data before its first.
pub proof fn law_a_key_goes_idle_after_five_minutes(f: FeedModel, key: Seq<char>, now: u64)
    ensures
        !f.latest.dom().contains(key) ==> f.freshness(key, now) == KeyFreshness::NoData,
        f.latest.dom().contains(key) && now < f.latest[key].at + 300_000_000_000
            ==> f.freshness(key, now) == KeyFreshness::Live,
        f.latest.dom().contains(key) && now >= f.latest[key].at + 300_000_000_000
            ==> f.freshness(key, now) == KeyFreshness::Idle,
        f.latest.dom().contains(key) && now >= f.latest[key].at ==> {
            &&& f.idle(key, now) is Some
            &&& f.idle(key, now)->0 * 1_000_000_000 <= now - f.latest[key].at
            &&& now - f.latest[key].at < (f.idle(key, now)->0 + 1) * 1_000_000_000
        },
{
}

/// A message that arrives is the newest of its key, with the time at which it came, and
/// leaves the newest messages of the others alone. While the detail is paused none of
/// them changes.
pub proof fn law_the_newest_message_of_a_key_is_kept(
    before: FeedModel,
    msg: MessageModel,
    now: u64,
    history: crate::history::HistoryModel,
    other: Seq<char>,
)
    requires
        other != msg.key_expr,
    ensures
        ({
            let after = before.received(msg, now, history);
            &&& before.history_paused ==> after.latest == before.latest && after.history
                == before.history
            &&& !before.history_paused ==> {
                &&& after.latest.dom().contains(msg.key_expr)
                &&& after.latest[msg.key_expr].message == msg
                &&& after.latest[msg.key_expr].at == now
                &&& after.latest.dom().contains(other) == before.latest.dom().contains(other)
                &&& before.latest.dom().contains(other) ==> after.latest[other]
                    == before.latest[other]
            }
        }),
{
}

} // verus!
