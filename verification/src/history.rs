//! Per-key message history.
//!
//! Each key gets its own ring, so a key's history does not depend on its
//! neighbours' rates, and there is always a previous message to diff the current
//! one against.
//!
//! Storage is deliberately lossy. The newest message is kept in full elsewhere;
//! everything older is kept as a capped structured view, because 128 entries per
//! key across a few thousand keys cannot hold whole payloads.
use std::collections::VecDeque;

use vstd::prelude::*;

use crate::json::{Json, JsonModel};
use crate::keyed::{ascending, KeyMap};
use crate::message::{string_view, MessageModel, ZenohMessage};
use crate::text::texts;

verus! {

/// Entries kept per key.
pub const HISTORY_CAP: usize = 128;

/// Per-entry ceiling on the stored view. Past this, an entry keeps a preview
/// and says so.
pub const PAYLOAD_CAP_BYTES: usize = 64 * 1024;

/// Ceiling across all keys.
///
/// The per-key cap alone does not bound anything useful: 2,000 keys × 128
/// entries is 256,000 entries, and a handful of keys publishing large payloads
/// would take the whole budget while the rest starve.
pub const BUDGET_BYTES: usize = 32 * 1024 * 1024;

/// Evict down to nine tenths of [`BUDGET_BYTES`], so eviction is an occasional
/// burst rather than a cost on every message once full.
pub const EVICT_TO_BYTES: usize = 30_198_988;

/// One past message, as much of it as is worth keeping.
#[derive(Debug)]
pub struct HistoryEntry {
    /// Parsed JSON where the payload was JSON, which is what the diff walks.
    pub view: Json,
    /// Wire length of the original payload, whether or not `view` holds all of
    /// it.
    pub raw_len: usize,
    /// `view` is a preview, not the whole payload.
    pub truncated: bool,
    pub encoding: String,
    pub timestamp: Option<String>,
    pub kind: String,
    /// When it arrived, in nanoseconds of a monotonic clock.
    pub received: u64,
}

/// An entry, as a mathematical value.
pub struct EntryModel {
    pub view: JsonModel,
    pub raw_len: usize,
    pub truncated: bool,
    pub encoding: Seq<char>,
    pub timestamp: Option<Seq<char>>,
    pub kind: Seq<char>,
    pub received: u64,
}

impl View for HistoryEntry {
    type V = EntryModel;

    open spec fn view(&self) -> EntryModel {
        EntryModel {
            view: self.view@,
            raw_len: self.raw_len,
            truncated: self.truncated,
            encoding: self.encoding@,
            timestamp: string_view(self.timestamp),
            kind: self.kind@,
            received: self.received,
        }
    }
}

/// What is kept of a message that arrived at `now`.
pub open spec fn entry_of(msg: MessageModel, now: u64) -> EntryModel {
    EntryModel {
        view: msg.payload.view,
        raw_len: msg.payload_bytes,
        truncated: msg.payload.len > PAYLOAD_CAP_BYTES,
        encoding: msg.encoding,
        timestamp: msg.timestamp,
        kind: msg.kind,
        received: now,
    }
}

/// What an entry counts for: its wire length, capped.
pub open spec fn entry_bytes(e: EntryModel) -> nat {
    if e.raw_len < PAYLOAD_CAP_BYTES {
        e.raw_len as nat
    } else {
        PAYLOAD_CAP_BYTES as nat
    }
}

/// What a ring counts for.
pub open spec fn ring_bytes(ring: Seq<EntryModel>) -> nat
    decreases ring.len(),
{
    if ring.len() == 0 {
        0
    } else {
        ring_bytes(ring.drop_last()) + entry_bytes(ring.last())
    }
}

proof fn lemma_ring_front(e: EntryModel, ring: Seq<EntryModel>)
    ensures
        ring_bytes(seq![e] + ring) == entry_bytes(e) + ring_bytes(ring),
    decreases ring.len(),
{
    let all = seq![e] + ring;
    if ring.len() == 0 {
        assert(all.drop_last() =~= Seq::empty());
        assert(ring_bytes(all.drop_last()) == 0);
    } else {
        assert(all.drop_last() =~= seq![e] + ring.drop_last());
        lemma_ring_front(e, ring.drop_last());
    }
}

proof fn lemma_ring_bound(ring: Seq<EntryModel>)
    ensures
        ring_bytes(ring) <= ring.len() * PAYLOAD_CAP_BYTES,
    decreases ring.len(),
{
    if ring.len() > 0 {
        lemma_ring_bound(ring.drop_last());
        assert(ring.len() * PAYLOAD_CAP_BYTES == (ring.len() - 1) * PAYLOAD_CAP_BYTES
            + PAYLOAD_CAP_BYTES) by (nonlinear_arith);
    }
}

impl HistoryEntry {
    fn from_message(msg: &ZenohMessage, now: u64) -> (e: HistoryEntry)
        ensures
            e@ == entry_of(msg@, now),
    {
        let timestamp = match &msg.timestamp {
            Some(t) => Some(t.clone()),
            None => None,
        };
        HistoryEntry {
            view: msg.payload.view.duplicate(),
            raw_len: msg.payload_bytes,
            truncated: msg.payload.len > PAYLOAD_CAP_BYTES,
            encoding: msg.encoding.clone(),
            timestamp,
            kind: msg.kind.clone(),
            received: now,
        }
    }

    /// Rough retained size.
    ///
    /// The stored value is a parsed structure, not bytes, so its true footprint
    /// would need a walk. The capped wire length is within a small factor and
    /// costs nothing — good enough to drive a budget, and the budget is a
    /// safety rail rather than an accounting figure.
    fn approx_bytes(&self) -> (n: usize)
        ensures
            n == entry_bytes(self@),
    {
        if self.raw_len < PAYLOAD_CAP_BYTES {
            self.raw_len
        } else {
            PAYLOAD_CAP_BYTES
        }
    }
}

/// One key's ring, newest first.
#[derive(Debug)]
pub struct KeyHistory {
    entries: VecDeque<HistoryEntry>,
    approx_bytes: usize,
}

/// The models of a list of entries.
pub open spec fn entry_models(entries: Seq<HistoryEntry>) -> Seq<EntryModel> {
    Seq::new(entries.len(), |i: int| entries[i]@)
}

impl View for KeyHistory {
    type V = Seq<EntryModel>;

    closed spec fn view(&self) -> Seq<EntryModel> {
        entry_models(self.entries@)
    }
}

impl KeyHistory {
    #[verifier::type_invariant]
    spec fn accounted(self) -> bool {
        &&& self.approx_bytes == ring_bytes(self@)
        &&& self@.len() <= HISTORY_CAP
    }

    pub fn new() -> (h: Self)
        ensures
            h@ == Seq::<EntryModel>::empty(),
    {
        let entries: VecDeque<HistoryEntry> = VecDeque::new();
        assert(entry_models(entries@) =~= Seq::empty());
        KeyHistory { entries, approx_bytes: 0 }
    }

    /// The `i`th entry, newest first.
    pub fn entry(&self, i: usize) -> (r: Option<&HistoryEntry>)
        ensures
            match r {
                Some(e) => i < self@.len() && e@ == self@[i as int],
                None => i >= self@.len(),
            },
    {
        if i < self.entries.len() {
            Some(&self.entries[i])
        } else {
            None
        }
    }

    pub fn len(&self) -> (n: usize)
        ensures
            n == self@.len(),
            n <= HISTORY_CAP,
    {
        proof {
            use_type_invariant(self);
        }
        self.entries.len()
    }

    pub fn is_empty(&self) -> (r: bool)
        ensures
            r == (self@.len() == 0),
    {
        self.entries.len() == 0
    }

    /// The most recent entry.
    pub fn latest(&self) -> (r: Option<&HistoryEntry>)
        ensures
            match r {
                Some(e) => self@.len() > 0 && e@ == self@[0],
                None => self@.len() == 0,
            },
    {
        self.entry(0)
    }

    /// The entry before the most recent — the diff baseline. `None` until a key
    /// has been seen twice, which is why a first message shows no diff.
    pub fn previous(&self) -> (r: Option<&HistoryEntry>)
        ensures
            match r {
                Some(e) => self@.len() > 1 && e@ == self@[1],
                None => self@.len() <= 1,
            },
    {
        self.entry(1)
    }

    /// What the ring counts for.
    fn bytes(&self) -> (n: usize)
        ensures
            n == ring_bytes(self@),
            n <= HISTORY_CAP * PAYLOAD_CAP_BYTES,
    {
        proof {
            use_type_invariant(self);
            lemma_ring_bound(self@);
            assert(self@.len() * PAYLOAD_CAP_BYTES <= HISTORY_CAP * PAYLOAD_CAP_BYTES)
                by (nonlinear_arith)
                requires
                    self@.len() <= HISTORY_CAP,
            ;
        }
        self.approx_bytes
    }

    fn push(&mut self, entry: HistoryEntry)
        ensures
            final(self)@ == pushed(old(self)@, entry@),
    {
        let bytes: usize = self.bytes();
        let added: usize = entry.approx_bytes();
        let ghost ring = self@;
        proof {
            use_type_invariant(&*self);
        }
        let mut held = KeyHistory::new();
        std::mem::swap(&mut held, self);
        let mut entries = held.entries;
        entries.push_front(entry);
        let mut total: usize = bytes + added;
        proof {
            assert(entry_models(entries@) =~= seq![entry@] + ring);
            lemma_ring_front(entry@, ring);
        }
        if entries.len() > HISTORY_CAP {
            let ghost all = entries@;
            let dropped = entries.pop_back();
            if let Some(d) = dropped {
                proof {
                    assert(d@ == entry_models(all).last());
                    assert(entry_models(entries@) =~= entry_models(all).drop_last());
                }
                total = total - d.approx_bytes();
            }
        }
        assert(entry_models(entries@) =~= pushed(ring, entry@));
        *self = KeyHistory { entries, approx_bytes: total };
    }

    /// Drop the oldest entry, returning the bytes reclaimed.
    fn pop_oldest(&mut self) -> (r: Option<usize>)
        ensures
            old(self)@.len() == 0 ==> r is None && final(self)@ == old(self)@,
            old(self)@.len() > 0 ==> {
                &&& r == Some(entry_bytes(old(self)@.last()) as usize)
                &&& final(self)@ == old(self)@.drop_last()
            },
    {
        let bytes: usize = self.bytes();
        let ghost ring = self@;
        proof {
            use_type_invariant(&*self);
        }
        if self.entries.len() == 0 {
            return None;
        }
        let mut held = KeyHistory::new();
        std::mem::swap(&mut held, self);
        let mut entries = held.entries;
        let ghost all = entries@;
        let dropped = entries.pop_back();
        match dropped {
            Some(d) => {
                let freed: usize = d.approx_bytes();
                proof {
                    assert(d@ == entry_models(all).last());
                    assert(entry_models(entries@) =~= entry_models(all).drop_last());
                }
                *self = KeyHistory { entries, approx_bytes: bytes - freed };
                Some(freed)
            },
            None => None,
        }
    }
}

/// A ring after a new entry came in: it leads, and the oldest falls off the end.
pub open spec fn pushed(ring: Seq<EntryModel>, e: EntryModel) -> Seq<EntryModel> {
    let all = seq![e] + ring;
    if all.len() > HISTORY_CAP {
        all.take(HISTORY_CAP as int)
    } else {
        all
    }
}

// ---------------------------------------------------------------------------
// Totals over all keys
// ---------------------------------------------------------------------------

/// Every key's ring.
pub type RingMap = Map<Seq<char>, Seq<EntryModel>>;

/// The sum of `f` over all rings.
pub open spec fn ring_sum(m: RingMap, f: spec_fn(Seq<EntryModel>) -> nat) -> nat
    decreases m.dom().len(),
    when m.dom().finite()
{
    if m.dom().len() == 0 {
        0
    } else {
        let k = m.dom().choose();
        f(m[k]) + ring_sum(m.remove(k), f)
    }
}

/// What all rings count for together.
pub open spec fn total_of(m: RingMap) -> nat {
    ring_sum(m, |r: Seq<EntryModel>| ring_bytes(r))
}

/// The number of entries in all rings.
pub open spec fn entries_in(m: RingMap) -> nat {
    ring_sum(m, |r: Seq<EntryModel>| r.len())
}

proof fn lemma_sum_split(m: RingMap, f: spec_fn(Seq<EntryModel>) -> nat, k: Seq<char>)
    requires
        m.dom().finite(),
        m.dom().contains(k),
    ensures
        ring_sum(m, f) == f(m[k]) + ring_sum(m.remove(k), f),
    decreases m.dom().len(),
{
    let c = m.dom().choose();
    assert(m.dom().contains(c)) by {
        vstd::set_lib::lemma_set_empty_equivalency_len(m.dom());
    }
    assert(m.dom().len() > 0) by {
        vstd::set_lib::lemma_set_empty_equivalency_len(m.dom());
    }
    assert(m.remove(c).dom() =~= m.dom().remove(c));
    assert(m.remove(k).dom() =~= m.dom().remove(k));
    if c != k {
        lemma_sum_split(m.remove(c), f, k);
        lemma_sum_split(m.remove(k), f, c);
        assert(m.remove(c).remove(k) =~= m.remove(k).remove(c));
    }
}

proof fn lemma_sum_insert(m: RingMap, f: spec_fn(Seq<EntryModel>) -> nat, k: Seq<char>, r: Seq<EntryModel>)
    requires
        m.dom().finite(),
    ensures
        m.dom().contains(k) ==> ring_sum(m.insert(k, r), f) + f(m[k]) == ring_sum(m, f) + f(r),
        !m.dom().contains(k) ==> ring_sum(m.insert(k, r), f) == ring_sum(m, f) + f(r),
{
    let n = m.insert(k, r);
    lemma_sum_split(n, f, k);
    assert(n.remove(k) =~= m.remove(k));
    if m.dom().contains(k) {
        lemma_sum_split(m, f, k);
    } else {
        assert(m.remove(k) =~= m);
    }
}

proof fn lemma_sum_member(m: RingMap, f: spec_fn(Seq<EntryModel>) -> nat, k: Seq<char>)
    requires
        m.dom().finite(),
        m.dom().contains(k),
    ensures
        f(m[k]) <= ring_sum(m, f),
{
    lemma_sum_split(m, f, k);
}

/// A positive sum has a positive summand.
proof fn lemma_sum_positive(m: RingMap, f: spec_fn(Seq<EntryModel>) -> nat) -> (k: Seq<char>)
    requires
        m.dom().finite(),
        ring_sum(m, f) > 0,
    ensures
        m.dom().contains(k),
        f(m[k]) > 0,
    decreases m.dom().len(),
{
    let c = m.dom().choose();
    assert(m.dom().len() > 0);
    assert(m.dom().contains(c)) by {
        vstd::set_lib::lemma_set_empty_equivalency_len(m.dom());
    }
    if f(m[c]) > 0 {
        c
    } else {
        assert(m.remove(c).dom() =~= m.dom().remove(c));
        lemma_sum_positive(m.remove(c), f)
    }
}

/// Whether `k` holds at least as many bytes as every other key.
pub open spec fn largest(m: RingMap, k: Seq<char>) -> bool {
    &&& m.dom().contains(k)
    &&& forall|j: Seq<char>| #[trigger]
        m.dom().contains(j) ==> ring_bytes(m[j]) <= ring_bytes(m[k])
}

/// The rings after the oldest entry of `k` was dropped.
pub open spec fn without_oldest(m: RingMap, k: Seq<char>) -> RingMap {
    m.insert(k, m[k].drop_last())
}

/// Whether one eviction step leads from `a` to `b`: while over the target, the
/// oldest entry goes from a key that holds the most.
pub open spec fn sheds(a: RingMap, b: RingMap, k: Seq<char>) -> bool {
    total_of(a) > EVICT_TO_BYTES && largest(a, k) && b == without_oldest(a, k)
}

/// Whether `n` eviction steps lead from `before` to `after`. Which of several
/// largest holders gives way is left open.
pub open spec fn shed(before: RingMap, after: RingMap, n: nat) -> bool
    decreases n,
{
    if n == 0 {
        after == before
    } else {
        let fewer = (n - 1) as nat;
        exists|mid: RingMap, k: Seq<char>|
            shed(before, mid, fewer) && #[trigger] sheds(mid, after, k)
    }
}

proof fn lemma_shed_more(before: RingMap, mid: RingMap, after: RingMap, k: Seq<char>, n: nat)
    requires
        shed(before, mid, n),
        sheds(mid, after, k),
    ensures
        shed(before, after, n + 1),
{
    let fewer = ((n + 1) - 1) as nat;
    assert(shed(before, mid, fewer) && sheds(mid, after, k));
}

/// The rings that hold something.
pub open spec fn held_rings(m: RingMap) -> RingMap {
    m.restrict(m.dom().filter(|k: Seq<char>| m[k].len() > 0))
}

/// A count that stops at the largest number it can hold.
pub open spec fn counted_up(n: usize, by: nat) -> usize {
    if n + by <= usize::MAX {
        (n + by) as usize
    } else {
        usize::MAX
    }
}

/// What keeping to the budget does: nothing while under it, and eviction steps
/// down to the target once over it. Keys left with nothing are dropped.
pub open spec fn budgeted(before: RingMap, after: RingMap, evicted: usize, evicted_after: usize) -> bool {
    if total_of(before) <= BUDGET_BYTES {
        after == before && evicted_after == evicted
    } else {
        exists|mid: RingMap, n: nat| #[trigger]
            shed(before, mid, n) && total_of(mid) <= EVICT_TO_BYTES && after == held_rings(mid)
                && evicted_after == counted_up(evicted, n)
    }
}

/// The rings of all keys, with their total.
#[derive(Debug)]
struct Rings {
    per_key: KeyMap<KeyHistory>,
    total_bytes: usize,
}

impl Rings {
    closed spec fn rings(self) -> RingMap {
        self.per_key@.map_values(|h: KeyHistory| h@)
    }

    #[verifier::type_invariant]
    closed spec fn accounted(self) -> bool {
        &&& self.rings().dom().finite()
        &&& self.total_bytes == total_of(self.rings())
        &&& self.total_bytes <= BUDGET_BYTES
        &&& forall|k: Seq<char>| #[trigger]
            self.rings().dom().contains(k) ==> self.rings()[k].len() > 0
    }
}

impl Rings {
    /// A copy of the rings.
    fn duplicate(&self) -> (r: Rings)
        ensures
            r.rings() == self.rings(),
    {
        proof {
            use_type_invariant(self);
        }
        let mut per_key: KeyMap<KeyHistory> = KeyMap::new();
        let keys = self.per_key.keys();
        let ghost all = texts(keys@);
        let ghost held = self.per_key@;
        let mut i: usize = 0;
        assert(all.take(0) =~= Seq::empty());
        while i < keys.len()
            invariant
                i <= keys.len(),
                all == texts(keys@),
                held == self.per_key@,
                forall|k: Seq<char>| held.dom().contains(k) <==> all.contains(k),
                forall|k: Seq<char>| #[trigger]
                    per_key@.dom().contains(k) <==> all.take(i as int).contains(k),
                forall|k: Seq<char>| #[trigger]
                    per_key@.dom().contains(k) ==> per_key@[k]@ == held[k]@,
            decreases keys.len() - i,
        {
            let ghost key = all[i as int];
            assert(keys@[i as int]@ == key);
            assert(all.contains(key));
            if let Some(h) = self.per_key.get(keys[i].as_str()) {
                per_key.insert(keys[i].clone(), h.clone());
            }
            proof {
                let a = all.take(i as int);
                let b = all.take(i + 1);
                assert(b =~= a.push(key));
                assert forall|k: Seq<char>| #[trigger]
                    per_key@.dom().contains(k) <==> b.contains(k) by {
                    if a.contains(k) {
                        let j = choose|j: int| 0 <= j < a.len() && a[j] == k;
                        assert(b[j] == k);
                    }
                    assert(b[i as int] == key);
                }
            }
            i += 1;
        }
        proof {
            assert(all.take(i as int) =~= all);
            assert(per_key@.map_values(|h: KeyHistory| h@) =~= held.map_values(|h: KeyHistory| h@));
        }
        Rings { per_key, total_bytes: self.total_bytes }
    }
}

/// Every key's history, under a shared budget.
#[derive(Debug)]
pub struct History {
    rings: Rings,
    /// Entries dropped to stay under [`BUDGET_BYTES`]. Surfaced in the UI, so a
    /// short history is visibly a budget decision rather than a gap in what the
    /// network sent.
    pub evicted: usize,
}

/// A history, as a mathematical value.
pub struct HistoryModel {
    pub rings: RingMap,
    pub evicted: usize,
}

impl View for History {
    type V = HistoryModel;

    closed spec fn view(&self) -> HistoryModel {
        HistoryModel { rings: self.rings.rings(), evicted: self.evicted }
    }
}

/// The ring of a key, empty where it has none.
pub open spec fn ring_at(m: RingMap, k: Seq<char>) -> Seq<EntryModel> {
    if m.dom().contains(k) {
        m[k]
    } else {
        Seq::empty()
    }
}

impl History {
    pub fn new() -> (h: Self)
        ensures
            h@.rings == RingMap::empty(),
            h@.evicted == 0,
    {
        let per_key: KeyMap<KeyHistory> = KeyMap::new();
        let ghost m = per_key@.map_values(|h: KeyHistory| h@);
        proof {
            assert(m =~= RingMap::empty());
            assert(m.dom() =~= Set::empty());
        }
        History { rings: Rings { per_key, total_bytes: 0 }, evicted: 0 }
    }

    /// Adds a message that arrived at `now` to its key's ring, then brings the
    /// total back under the budget.
    pub fn record(&mut self, msg: &ZenohMessage, now: u64)
        ensures
            budgeted(
                old(self)@.rings.insert(
                    msg@.key_expr,
                    pushed(ring_at(old(self)@.rings, msg@.key_expr), entry_of(msg@, now)),
                ),
                final(self)@.rings,
                old(self)@.evicted,
                final(self)@.evicted,
            ),
            total_of(final(self)@.rings) <= BUDGET_BYTES,
            final(self)@.rings.dom().finite(),
    {
        let entry = HistoryEntry::from_message(msg, now);
        let ghost before = self.rings.rings();
        let ghost k = msg.key_expr@;
        let ghost e = entry@;
        proof {
            use_type_invariant(&self.rings);
        }
        let mut fresh = History::new();
        std::mem::swap(&mut fresh.rings, &mut self.rings);
        let rings = fresh.rings;
        let total: usize = rings.total_bytes;
        let mut per_key = rings.per_key;
        let held = per_key.replace(msg.key_expr.as_str(), KeyHistory::new());
        let mut ring = match held {
            Some(r) => r,
            None => KeyHistory::new(),
        };
        assert(ring@ =~= ring_at(before, k));
        let old_bytes: usize = ring.bytes();
        proof {
            let f = |r: Seq<EntryModel>| ring_bytes(r);
            if before.dom().contains(k) {
                lemma_sum_member(before, f, k);
            }
            lemma_ring_front(e, ring@);
            use_type_invariant(&ring);
        }
        let ghost ring0 = ring@;
        ring.push(entry);
        let new_bytes: usize = ring.bytes();
        proof {
            assert(new_bytes <= old_bytes + PAYLOAD_CAP_BYTES) by {
                if (seq![e] + ring0).len() > HISTORY_CAP {
                    let all = seq![e] + ring0;
                    assert(all.take(HISTORY_CAP as int) =~= all.drop_last());
                }
            }
        }
        per_key.insert(msg.key_expr.clone(), ring);
        let sum: usize = (total - old_bytes) + new_bytes;
        let ghost grown = before.insert(k, pushed(ring_at(before, k), e));
        proof {
            let f = |r: Seq<EntryModel>| ring_bytes(r);
            lemma_sum_insert(before, f, k, pushed(ring_at(before, k), e));
            assert(per_key@.map_values(|h: KeyHistory| h@) =~= grown);
        }
        self.enforce_budget(per_key, sum, Ghost(grown));
        proof {
            use_type_invariant(&self.rings);
        }
    }

    /// Bring the total under budget by repeatedly dropping the oldest entry
    /// from whichever key currently holds the most.
    ///
    /// Greedy against the biggest holder rather than fair across all keys: a
    /// few keys carrying large payloads are exactly what puts the total over,
    /// and taking one entry from every key would punish the quiet ones for it.
    ///
    /// The scan for the largest is O(keys) per drop, which is affordable
    /// because this runs only when over budget and then clears down to
    /// [`EVICT_TO_BYTES`] — a burst on the way past the ceiling, not a cost
    /// carried by every message once there.
    fn enforce_budget(&mut self, per_key: KeyMap<KeyHistory>, total: usize, Ghost(before): Ghost<RingMap>)
        requires
            per_key@.map_values(|h: KeyHistory| h@) == before,
            before.dom().finite(),
            total == total_of(before),
            forall|k: Seq<char>| #[trigger] before.dom().contains(k) ==> before[k].len() > 0,
        ensures
            budgeted(before, final(self)@.rings, old(self)@.evicted, final(self)@.evicted),
            total_of(final(self)@.rings) <= BUDGET_BYTES,
    {
        if total <= BUDGET_BYTES {
            self.rings = Rings { per_key, total_bytes: total };
            assert(self.rings.rings() =~= before);
            return;
        }
        let ghost evicted0 = self.evicted;
        let mut per_key = per_key;
        let mut total = total;
        let ghost mut m = before;
        let ghost mut n: nat = 0;
        while total > EVICT_TO_BYTES
            invariant
                m.dom().finite(),
                per_key@.map_values(|h: KeyHistory| h@) == m,
                total == total_of(m),
                shed(before, m, n),
                self.evicted == counted_up(evicted0, n),
            decreases entries_in(m),
        {
            let key = Self::largest_holder(&per_key);
            let ghost k = key@;
            proof {
                assert(per_key@.dom() =~= m.dom());
                let f = |r: Seq<EntryModel>| ring_bytes(r);
                let g = |r: Seq<EntryModel>| r.len();
                let j = lemma_sum_positive(m, f);
                assert(ring_bytes(m[j]) > 0);
                assert(m.dom().contains(j));
                assert(ring_bytes(m[k]) > 0);
                assert(m[k].len() > 0);
                lemma_sum_insert(m, f, k, m[k].drop_last());
                lemma_sum_insert(m, g, k, m[k].drop_last());
                lemma_sum_member(m, f, k);
            }
            let held = per_key.replace(key.as_str(), KeyHistory::new());
            let mut ring = match held {
                Some(r) => r,
                None => KeyHistory::new(),
            };
            assert(ring@ == m[k]);
            let dropped = ring.pop_oldest();
            per_key.insert(key, ring);
            match dropped {
                Some(bytes) => {
                    total = total - bytes;
                },
                None => {},
            }
            if self.evicted < usize::MAX {
                self.evicted = self.evicted + 1;
            }
            proof {
                let next = without_oldest(m, k);
                assert(per_key@.map_values(|h: KeyHistory| h@) =~= next);
                assert(sheds(m, next, k));
                lemma_shed_more(before, m, next, k, n);
                m = next;
                n = n + 1;
            }
        }
        let ghost shed_to = m;
        let ghost count = n;
        // Drop the keys that hold nothing any more.
        let keys = per_key.keys();
        let ghost names = texts(keys@);
        let mut i: usize = 0;
        proof {
            assert(per_key@.dom() =~= m.dom());
            assert(names.skip(0) =~= names);
        }
        while i < keys.len()
            invariant
                i <= keys.len(),
                names == texts(keys@),
                ascending(names),
                shed_to.dom().finite(),
                m.dom().finite(),
                per_key@.map_values(|h: KeyHistory| h@) == m,
                total == total_of(m),
                total_of(m) == total_of(shed_to),
                forall|k: Seq<char>| #[trigger] m.dom().contains(k) <==> shed_to.dom().contains(k)
                    && (shed_to[k].len() > 0 || names.skip(i as int).contains(k)),
                forall|k: Seq<char>| #[trigger] m.dom().contains(k) ==> m[k] == shed_to[k],
            decreases keys.len() - i,
        {
            let ghost k = keys@[i as int]@;
            proof {
                assert(names[i as int] == k);
                assert(names.skip(i as int)[0] == k);
                assert(names.skip(i as int).contains(k));
                crate::keyed::lemma_ascending_distinct(names);
                let here = names.skip(i as int);
                let rest = names.skip(i as int + 1);
                assert forall|x: Seq<char>| here.contains(x) <==> x == k || rest.contains(x) by {
                    if here.contains(x) && x != k {
                        let p = here.index_of(x);
                        assert(rest[p - 1] == x);
                    }
                    if rest.contains(x) {
                        let p = rest.index_of(x);
                        assert(here[p + 1] == x);
                    }
                }
                if rest.contains(k) {
                    let p = rest.index_of(k);
                    assert(names[i + 1 + p] == names[i as int]);
                }
            }
            let empty = match per_key.get(keys[i].as_str()) {
                Some(h) => h.is_empty(),
                None => false,
            };
            if empty {
                proof {
                    let f = |r: Seq<EntryModel>| ring_bytes(r);
                    assert(per_key@.dom().contains(k));
                    assert(m.dom().contains(k));
                    assert(m[k] == per_key@[k]@);
                    lemma_sum_split(m, f, k);
                    assert(ring_bytes(m[k]) == 0);
                }
                let _ = per_key.remove(keys[i].as_str());
                proof {
                    assert(per_key@.map_values(|h: KeyHistory| h@) =~= m.remove(k));
                    m = m.remove(k);
                }
            } else {
                proof {
                    if m.dom().contains(k) {
                        assert(per_key@.dom().contains(k));
                        assert(m[k] == per_key@[k]@);
                    }
                }
            }
            i += 1;
        }
        proof {
            assert(names.skip(i as int).len() == 0);
            assert forall|k: Seq<char>| #[trigger] m.dom().contains(k) implies m[k].len() > 0 by {
                assert(!names.skip(i as int).contains(k));
            }
            assert(m =~= held_rings(shed_to)) by {
                assert forall|k: Seq<char>|
                    m.dom().contains(k) <==> held_rings(shed_to).dom().contains(k) by {
                    assert(!names.skip(i as int).contains(k));
                }
            }
        }
        self.rings = Rings { per_key, total_bytes: total };
        assert(self.rings.rings() =~= m);
        assert(shed(before, shed_to, count));
    }

    /// The key that holds the most.
    fn largest_holder(per_key: &KeyMap<KeyHistory>) -> (key: String)
        requires
            per_key@.dom().finite(),
            total_of(per_key@.map_values(|h: KeyHistory| h@)) > 0,
        ensures
            largest(per_key@.map_values(|h: KeyHistory| h@), key@),
    {
        let ghost m = per_key@.map_values(|h: KeyHistory| h@);
        proof {
            let f = |r: Seq<EntryModel>| ring_bytes(r);
            assert(m.dom() =~= per_key@.dom());
            let j = lemma_sum_positive(m, f);
            assert(per_key@.dom().contains(j));
        }
        let keys = per_key.keys();
        let count: usize = per_key.len();
        let ghost names = texts(keys@);
        proof {
            assert(keys@.len() == names.len());
            if count == 0 {
                vstd::set_lib::lemma_set_empty_equivalency_len(per_key@.dom());
            }
        }
        let mut best: usize = 0;
        let mut best_bytes: usize = per_key.value_at(0).bytes();
        let mut i: usize = 1;
        while i < count
            invariant
                1 <= i <= count,
                best < i,
                count == per_key.key_seq().len(),
                m == per_key@.map_values(|h: KeyHistory| h@),
                per_key@.dom().contains(per_key.key_seq()[best as int]),
                best_bytes == ring_bytes(per_key@[per_key.key_seq()[best as int]]@),
                forall|j: int|
                    0 <= j < i ==> ring_bytes(per_key@[#[trigger] per_key.key_seq()[j]]@)
                        <= best_bytes,
            decreases count - i,
        {
            let bytes: usize = per_key.value_at(i).bytes();
            if bytes >= best_bytes {
                best = i;
                best_bytes = bytes;
            }
            i += 1;
        }
        let key = per_key.key_at(best).clone();
        proof {
            assert forall|j: Seq<char>| #[trigger] m.dom().contains(j) implies ring_bytes(m[j])
                <= ring_bytes(m[key@]) by {
                assert(per_key@.dom().contains(j));
                assert(names.contains(j));
                let p = choose|p: int| 0 <= p < names.len() && names[p] == j;
                assert(per_key.key_seq()[p] == j);
            }
        }
        key
    }

    pub fn get(&self, key: &str) -> (r: Option<&KeyHistory>)
        ensures
            match r {
                Some(h) => self@.rings.dom().contains(key@) && h@ == self@.rings[key@],
                None => !self@.rings.dom().contains(key@),
            },
    {
        self.rings.per_key.get(key)
    }

    pub fn remove(&mut self, key: &str)
        ensures
            final(self)@.rings == old(self)@.rings.remove(key@),
            final(self)@.evicted == old(self)@.evicted,
    {
        proof {
            use_type_invariant(&self.rings);
        }
        let ghost before = self.rings.rings();
        let mut fresh = History::new();
        std::mem::swap(&mut fresh.rings, &mut self.rings);
        let rings = fresh.rings;
        let total: usize = rings.total_bytes;
        let mut per_key = rings.per_key;
        let freed: usize = match per_key.get(key) {
            Some(h) => h.bytes(),
            None => 0,
        };
        let held = per_key.remove(key);
        proof {
            let f = |r: Seq<EntryModel>| ring_bytes(r);
            if held {
                assert(before.dom().contains(key@));
                lemma_sum_split(before, f, key@);
            }
            assert(per_key@.map_values(|h: KeyHistory| h@) =~= before.remove(key@));
            if !held {
                assert(before.remove(key@) =~= before);
            }
        }
        self.rings = Rings { per_key, total_bytes: total - freed };
        assert(self.rings.rings() =~= before.remove(key@));
    }

    pub fn clear(&mut self)
        ensures
            final(self)@.rings == RingMap::empty(),
            final(self)@.evicted == 0,
    {
        *self = History::new();
    }

    pub fn total_bytes(&self) -> (n: usize)
        ensures
            n == total_of(self@.rings),
            n <= BUDGET_BYTES,
    {
        proof {
            use_type_invariant(&self.rings);
        }
        self.rings.total_bytes
    }

    /// The keys currently holding at least one entry.
    pub(crate) fn keys(&self) -> (v: Vec<String>)
        ensures
            forall|k: Seq<char>| self@.rings.dom().contains(k) <==> texts(v@).contains(k),
    {
        let v = self.rings.per_key.keys();
        assert(self@.rings.dom() =~= self.rings.per_key@.dom());
        v
    }

    /// Keys currently holding at least one entry.
    pub fn keys_held(&self) -> (n: usize)
        ensures
            n == self@.rings.dom().len(),
            forall|k: Seq<char>| #[trigger]
                self@.rings.dom().contains(k) ==> self@.rings[k].len() > 0,
    {
        proof {
            use_type_invariant(&self.rings);
            assert(self@.rings.dom() =~= self.rings.per_key@.dom());
        }
        self.rings.per_key.len()
    }
}

impl Clone for HistoryEntry {
    fn clone(&self) -> (e: Self)
        ensures
            e@ == self@,
    {
        let timestamp = match &self.timestamp {
            Some(t) => Some(t.clone()),
            None => None,
        };
        HistoryEntry {
            view: self.view.duplicate(),
            raw_len: self.raw_len,
            truncated: self.truncated,
            encoding: self.encoding.clone(),
            timestamp,
            kind: self.kind.clone(),
            received: self.received,
        }
    }
}

impl Clone for KeyHistory {
    fn clone(&self) -> (h: Self)
        ensures
            h@ == self@,
    {
        proof {
            use_type_invariant(self);
        }
        let mut entries: VecDeque<HistoryEntry> = VecDeque::new();
        let mut i: usize = 0;
        while i < self.entries.len()
            invariant
                i <= self.entries@.len(),
                entries@.len() == i,
                forall|k: int| 0 <= k < i ==> (#[trigger] entries@[k])@ == self.entries@[k]@,
            decreases self.entries@.len() - i,
        {
            entries.push_back(self.entries[i].clone());
            i += 1;
        }
        assert(entry_models(entries@) =~= entry_models(self.entries@));
        KeyHistory { entries, approx_bytes: self.approx_bytes }
    }
}

impl Clone for History {
    fn clone(&self) -> (h: Self)
        ensures
            h@ == self@,
    {
        History { rings: self.rings.duplicate(), evicted: self.evicted }
    }
}

impl Default for KeyHistory {
    fn default() -> (h: Self)
        ensures
            h@ == Seq::<EntryModel>::empty(),
    {
        KeyHistory::new()
    }
}

impl Default for History {
    fn default() -> (h: Self)
        ensures
            h@.rings == RingMap::empty(),
            h@.evicted == 0,
    {
        History::new()
    }
}

// ---------------------------------------------------------------------------
// Laws
// ---------------------------------------------------------------------------

/// While the total stays under the budget, recording on one key leaves every
/// other key's history alone, however often it happens.
pub proof fn law_history_is_independent_of_neighbours(
    before: HistoryModel,
    after: HistoryModel,
    key: Seq<char>,
    e: EntryModel,
    other: Seq<char>,
)
    requires
        budgeted(
            before.rings.insert(key, pushed(ring_at(before.rings, key), e)),
            after.rings,
            before.evicted,
            after.evicted,
        ),
        total_of(before.rings.insert(key, pushed(ring_at(before.rings, key), e))) <= BUDGET_BYTES,
        other != key,
    ensures
        after.rings.dom().contains(other) == before.rings.dom().contains(other),
        ring_at(after.rings, other) == ring_at(before.rings, other),
        after.rings.dom().contains(key),
        after.rings[key][0] == e,
        ring_at(before.rings, key).len() < HISTORY_CAP ==> after.rings[key].drop_first()
            == ring_at(before.rings, key),
{
    let ring = ring_at(before.rings, key);
    assert((seq![e] + ring).drop_first() =~= ring);
}

/// Dropping a key gives back exactly the bytes it held.
pub proof fn law_removing_a_key_reclaims_its_bytes(m: RingMap, key: Seq<char>)
    requires
        m.dom().finite(),
        m.dom().contains(key),
    ensures
        total_of(m) == total_of(m.remove(key)) + ring_bytes(m[key]),
{
    lemma_sum_split(m, |r: Seq<EntryModel>| ring_bytes(r), key);
}

/// The total is at most the largest ring times the number of keys.
pub(crate) proof fn lemma_total_bound(m: RingMap, bound: nat)
    requires
        m.dom().finite(),
        forall|k: Seq<char>| #[trigger] m.dom().contains(k) ==> ring_bytes(m[k]) <= bound,
    ensures
        total_of(m) <= m.dom().len() * bound,
    decreases m.dom().len(),
{
    let f = |r: Seq<EntryModel>| ring_bytes(r);
    if m.dom().len() > 0 {
        let k = m.dom().choose();
        assert(m.dom().contains(k)) by {
            vstd::set_lib::lemma_set_empty_equivalency_len(m.dom());
        }
        let rest = m.remove(k);
        assert(rest.dom() =~= m.dom().remove(k));
        assert forall|j: Seq<char>| #[trigger] rest.dom().contains(j) implies ring_bytes(rest[j])
            <= bound by {
            assert(m.dom().contains(j));
        }
        lemma_total_bound(rest, bound);
        let n = m.dom().len();
        assert(n * bound == (n - 1) * bound + bound) by (nonlinear_arith)
            requires
                n > 0,
        ;
    }
}

/// Eviction spares the quiet keys: a key that holds no more than an equal share
/// of the target keeps everything, however many entries others lose.
pub proof fn law_eviction_spares_quiet_keys(before: RingMap, after: RingMap, n: nat, quiet: Seq<char>)
    requires
        before.dom().finite(),
        before.dom().contains(quiet),
        before.dom().len() * ring_bytes(before[quiet]) <= EVICT_TO_BYTES,
        shed(before, after, n),
    ensures
        after.dom() == before.dom(),
        after[quiet] == before[quiet],
    decreases n,
{
    if n > 0 {
        let fewer = (n - 1) as nat;
        let (mid, k) = choose|mid: RingMap, k: Seq<char>|
            shed(before, mid, fewer) && #[trigger] sheds(mid, after, k);
        law_eviction_spares_quiet_keys(before, mid, fewer, quiet);
        assert(after.dom() =~= before.dom());
        if k == quiet {
            lemma_total_bound(mid, ring_bytes(mid[quiet]));
        }
    }
}

proof fn lemma_ring_start(ring: Seq<EntryModel>, n: int)
    requires
        0 <= n <= ring.len(),
    ensures
        ring_bytes(ring.take(n)) <= ring_bytes(ring),
    decreases ring.len(),
{
    if n < ring.len() {
        assert(ring.drop_last().take(n) =~= ring.take(n));
        lemma_ring_start(ring.drop_last(), n);
    } else {
        assert(ring.take(n) =~= ring);
    }
}

/// Where the budget has room for one more entry, recording it changes the ring of its
/// key and nothing else.
pub proof fn law_within_the_budget_one_ring_changes(
    before: HistoryModel,
    after: HistoryModel,
    key: Seq<char>,
    e: EntryModel,
)
    requires
        before.rings.dom().finite(),
        total_of(before.rings) + entry_bytes(e) <= BUDGET_BYTES,
        budgeted(
            before.rings.insert(key, pushed(ring_at(before.rings, key), e)),
            after.rings,
            before.evicted,
            after.evicted,
        ),
    ensures
        after.rings == before.rings.insert(key, pushed(ring_at(before.rings, key), e)),
        after.evicted == before.evicted,
        after.rings.dom().finite(),
        total_of(after.rings) <= total_of(before.rings) + entry_bytes(e),
{
    let ring = ring_at(before.rings, key);
    let all = seq![e] + ring;
    lemma_ring_front(e, ring);
    if all.len() > HISTORY_CAP {
        lemma_ring_start(all, HISTORY_CAP as int);
    }
    lemma_sum_insert(
        before.rings,
        |r: Seq<EntryModel>| ring_bytes(r),
        key,
        pushed(ring, e),
    );
}

proof fn lemma_shed_keys(before: RingMap, after: RingMap, n: nat)
    requires
        shed(before, after, n),
    ensures
        after.dom() == before.dom(),
    decreases n,
{
    if n > 0 {
        let fewer = (n - 1) as nat;
        let (mid, k) = choose|mid: RingMap, k: Seq<char>|
            shed(before, mid, fewer) && #[trigger] sheds(mid, after, k);
        lemma_shed_keys(before, mid, fewer);
        assert(after.dom() =~= before.dom());
    }
}

pub(crate) proof fn lemma_held_total(m: RingMap)
    requires
        m.dom().finite(),
    ensures
        held_rings(m).dom().finite(),
        total_of(held_rings(m)) == total_of(m),
    decreases m.dom().len(),
{
    let f = |r: Seq<EntryModel>| ring_bytes(r);
    let held = held_rings(m);
    assert(held.dom() =~= m.dom().filter(|k: Seq<char>| m[k].len() > 0));
    m.dom().lemma_len_filter(|k: Seq<char>| m[k].len() > 0);
    if exists|k: Seq<char>| #[trigger] m.dom().contains(k) && m[k].len() == 0 {
        let k = choose|k: Seq<char>| #[trigger] m.dom().contains(k) && m[k].len() == 0;
        let rest = m.remove(k);
        lemma_sum_split(m, f, k);
        assert(rest.dom() =~= m.dom().remove(k));
        lemma_held_total(rest);
        assert(held_rings(rest) =~= held);
    } else {
        assert(held =~= m);
    }
}

/// However much comes in, what is held stays finite and within the budget, and an
/// eviction goes all the way down to its target.
pub proof fn law_eviction_reaches_its_target(
    before: RingMap,
    after: RingMap,
    evicted: usize,
    evicted_after: usize,
)
    requires
        before.dom().finite(),
        budgeted(before, after, evicted, evicted_after),
    ensures
        after.dom().finite(),
        total_of(after) <= BUDGET_BYTES,
        total_of(before) > BUDGET_BYTES ==> total_of(after) <= EVICT_TO_BYTES,
{
    if total_of(before) > BUDGET_BYTES {
        let (mid, n) = choose|mid: RingMap, n: nat| #[trigger]
            shed(before, mid, n) && total_of(mid) <= EVICT_TO_BYTES && after == held_rings(mid)
                && evicted_after == counted_up(evicted, n);
        lemma_shed_keys(before, mid, n);
        lemma_held_total(mid);
    }
}

} // verus!
