//! What has been observed on the network: the latest message and the history of
//! every key, and the per-second accounting of how much each one sends.
use vstd::prelude::*;

use crate::app::rate::{Rate, RateWindow, WindowModel, RATE_WINDOW_SECS};
use crate::history::{budgeted, counted_up, entry_of, pushed, ring_at, History, HistoryModel};
use crate::keyed::{KeyMap, KeySet};
use crate::message::{MessageModel, ZenohMessage};
use crate::text::{segments, texts};
use crate::tray::capture::sum_up;

verus! {

/// Keys kept before the longest-idle ones are forgotten.
pub const MAX_KEYS: usize = 10_000;

/// Eviction goes past the cap down to nine tenths of it.
pub const EVICT_TO_KEYS: usize = 9_000;

/// Seconds without a message after which a key dims.
pub const IDLE_DIM_SECS: u64 = 300;

/// A second, in nanoseconds.
pub const NANOS_PER_SEC: u64 = 1_000_000_000;

/// The newest message on a key, and when it arrived.
pub struct Latest {
    pub message: ZenohMessage,
    pub at: u64,
}

/// The newest message on a key, as a mathematical value.
pub struct LatestModel {
    pub message: MessageModel,
    pub at: u64,
}

impl View for Latest {
    type V = LatestModel;

    open spec fn view(&self) -> LatestModel {
        LatestModel { message: self.message@, at: self.at }
    }
}

/// Everything observed about keys. Times are nanoseconds of a monotonic clock.
pub struct Feed {
    pub latest: KeyMap<Latest>,
    pub history: History,
    /// What the detail reads is frozen.
    pub history_paused: bool,
    pub msg_counts: KeyMap<u32>,
    pub byte_counts: KeyMap<u64>,
    pub total_msg_count: u32,
    pub total_byte_count: u64,
    pub hz: KeyMap<Rate>,
    pub rates: KeyMap<RateWindow>,
    pub total_rate: RateWindow,
    pub total_hz: Rate,
    pub last_hz_update: u64,
    pub keys_aged_out: usize,
}

/// A feed, as a mathematical value.
pub struct FeedModel {
    pub latest: Map<Seq<char>, LatestModel>,
    pub history: HistoryModel,
    pub history_paused: bool,
    pub msg_counts: Map<Seq<char>, u32>,
    pub byte_counts: Map<Seq<char>, u64>,
    pub total_msg_count: u32,
    pub total_byte_count: u64,
    pub hz: Map<Seq<char>, Rate>,
    pub rates: Map<Seq<char>, WindowModel>,
    pub total_rate: WindowModel,
    pub total_hz: Rate,
    pub last_hz_update: u64,
    pub keys_aged_out: usize,
}

/// The models of the latest messages.
pub open spec fn latest_models(m: Map<Seq<char>, Latest>) -> Map<Seq<char>, LatestModel> {
    m.map_values(|l: Latest| l@)
}

/// The models of the windows.
pub open spec fn window_models(m: Map<Seq<char>, RateWindow>) -> Map<Seq<char>, WindowModel> {
    m.map_values(|w: RateWindow| w@)
}

impl View for Feed {
    type V = FeedModel;

    open spec fn view(&self) -> FeedModel {
        FeedModel {
            latest: latest_models(self.latest@),
            history: self.history@,
            history_paused: self.history_paused,
            msg_counts: self.msg_counts@,
            byte_counts: self.byte_counts@,
            total_msg_count: self.total_msg_count,
            total_byte_count: self.total_byte_count,
            hz: self.hz@,
            rates: window_models(self.rates@),
            total_rate: self.total_rate@,
            total_hz: self.total_hz,
            last_hz_update: self.last_hz_update,
            keys_aged_out: self.keys_aged_out,
        }
    }
}

/// Whether a key is publishing, has gone quiet, or has no payload yet.
#[derive(Debug, Clone, Copy, PartialEq, Eq, Structural)]
pub enum KeyFreshness {
    Live,
    Idle,
    NoData,
}

/// Nanoseconds since `at`, or none where that is still to come.
pub open spec fn since(at: u64, now: u64) -> u64 {
    if now >= at {
        (now - at) as u64
    } else {
        0
    }
}

/// Nanoseconds since `at`, or none where that is still to come.
pub fn elapsed(at: u64, now: u64) -> (n: u64)
    ensures
        n == since(at, now),
{
    if now >= at {
        now - at
    } else {
        0
    }
}

/// A count one higher, unless it is at its limit.
pub open spec fn one_more(n: u32) -> u32 {
    if n < u32::MAX {
        (n + 1) as u32
    } else {
        n
    }
}

/// The count of a key, nothing where it has none.
pub open spec fn count_at(m: Map<Seq<char>, u32>, k: Seq<char>) -> u32 {
    if m.dom().contains(k) {
        m[k]
    } else {
        0
    }
}

/// The bytes of a key, none where it has none.
pub open spec fn bytes_at(m: Map<Seq<char>, u64>, k: Seq<char>) -> u64 {
    if m.dom().contains(k) {
        m[k]
    } else {
        0
    }
}

/// The window of a key, an empty one where it has none.
pub open spec fn window_at(m: Map<Seq<char>, WindowModel>, k: Seq<char>) -> WindowModel {
    if m.dom().contains(k) {
        m[k]
    } else {
        WindowModel::empty(RATE_WINDOW_SECS)
    }
}

/// Application payload bytes of a message (not protocol overhead).
pub open spec fn message_bytes(msg: MessageModel) -> int {
    msg.payload_bytes + (match msg.attachment_bytes {
        Some(n) => n,
        None => 0,
    })
}

impl FeedModel {
    /// Nothing observed yet, with the first second starting at `now`.
    pub open spec fn fresh(now: u64) -> FeedModel {
        FeedModel {
            latest: Map::empty(),
            history: HistoryModel { rings: Map::empty(), evicted: 0 },
            history_paused: false,
            msg_counts: Map::empty(),
            byte_counts: Map::empty(),
            total_msg_count: 0,
            total_byte_count: 0,
            hz: Map::empty(),
            rates: Map::empty(),
            total_rate: WindowModel::empty(RATE_WINDOW_SECS),
            total_hz: Rate { messages: 0, nanos: NANOS_PER_SEC },
            last_hz_update: now,
            keys_aged_out: 0,
        }
    }

    /// After a message was counted.
    pub open spec fn counted(self, msg: MessageModel) -> FeedModel {
        let k = msg.key_expr;
        FeedModel {
            msg_counts: self.msg_counts.insert(k, one_more(count_at(self.msg_counts, k))),
            total_msg_count: one_more(self.total_msg_count),
            byte_counts: self.byte_counts.insert(
                k,
                sum_up(bytes_at(self.byte_counts, k), message_bytes(msg)),
            ),
            total_byte_count: sum_up(self.total_byte_count, message_bytes(msg)),
            ..self
        }
    }

    /// After a message was kept as the newest one of its key, with the history
    /// that this led to.
    pub open spec fn kept(self, msg: MessageModel, now: u64, history: HistoryModel) -> FeedModel {
        FeedModel {
            latest: self.latest.insert(msg.key_expr, LatestModel { message: msg, at: now }),
            history,
            ..self
        }
    }

    /// After a message arrived. Pausing freezes what the detail reads — the
    /// latest payload and the history behind the diff — and nothing else.
    pub open spec fn received(self, msg: MessageModel, now: u64, history: HistoryModel) -> FeedModel {
        if self.history_paused {
            self.counted(msg)
        } else {
            self.kept(msg, now, history).counted(msg)
        }
    }
}

/// Whether `after` is a history that recording the message leads to.
pub open spec fn recorded(
    before: HistoryModel,
    msg: MessageModel,
    now: u64,
    after: HistoryModel,
) -> bool {
    budgeted(
        before.rings.insert(
            msg.key_expr,
            pushed(ring_at(before.rings, msg.key_expr), entry_of(msg, now)),
        ),
        after.rings,
        before.evicted,
        after.evicted,
    )
}

impl Feed {
    pub fn new(now: u64) -> (f: Feed)
        ensures
            f@ == FeedModel::fresh(now),
    {
        let f = Feed {
            latest: KeyMap::new(),
            history: History::new(),
            history_paused: false,
            msg_counts: KeyMap::new(),
            byte_counts: KeyMap::new(),
            total_msg_count: 0,
            total_byte_count: 0,
            hz: KeyMap::new(),
            rates: KeyMap::new(),
            total_rate: RateWindow::new(RATE_WINDOW_SECS),
            total_hz: Rate { messages: 0, nanos: NANOS_PER_SEC },
            last_hz_update: now,
            keys_aged_out: 0,
        };
        proof {
            assert(f@.latest =~= Map::empty());
            assert(f@.rates =~= Map::empty());
            assert(f@.history == (HistoryModel { rings: Map::empty(), evicted: 0 }));
        }
        f
    }

    /// Take in a message that arrived at `now`.
    pub fn receive(&mut self, msg: ZenohMessage, now: u64)
        ensures
            final(self)@ == old(self)@.received(msg@, now, final(self)@.history),
            old(self)@.history_paused ==> final(self)@.history == old(self)@.history,
            !old(self)@.history_paused ==> recorded(
                old(self)@.history,
                msg@,
                now,
                final(self)@.history,
            ),
    {
        let ghost before = self@;
        let payload: u64 = msg.payload_bytes as u64;
        let attachment: u64 = match msg.attachment_bytes {
            Some(n) => n as u64,
            None => 0,
        };
        let key = msg.key_expr.clone();
        let ghost k = key@;
        let ghost m = msg@;
        if !self.history_paused {
            self.history.record(&msg, now);
            let ghost latest0 = self.latest@;
            let newest = Latest { message: msg, at: now };
            self.latest.insert(key.clone(), newest);
            proof {
                assert(latest_models(self.latest@) =~= latest_models(latest0).insert(k, newest@));
                assert(self@ == before.kept(m, now, self@.history));
            }
        }
        let ghost middle = self@;
        let count: u32 = match self.msg_counts.get(key.as_str()) {
            Some(n) => *n,
            None => 0,
        };
        self.msg_counts.insert(
            key.clone(),
            if count < u32::MAX {
                count + 1
            } else {
                count
            },
        );
        if self.total_msg_count < u32::MAX {
            self.total_msg_count = self.total_msg_count + 1;
        }
        let held: u64 = match self.byte_counts.get(key.as_str()) {
            Some(n) => *n,
            None => 0,
        };
        self.byte_counts.insert(key, held.saturating_add(payload).saturating_add(attachment));
        self.total_byte_count = self.total_byte_count.saturating_add(payload).saturating_add(
            attachment,
        );
        assert(self@ == middle.counted(m));
    }

    /// Whether a key is publishing, has gone quiet, or has no payload yet.
    pub fn key_freshness(&self, key: &str, now: u64) -> (r: KeyFreshness)
        ensures
            r == self@.freshness(key@, now),
    {
        match self.latest.get(key) {
            None => KeyFreshness::NoData,
            Some(l) => if elapsed(l.at, now) / NANOS_PER_SEC >= IDLE_DIM_SECS {
                KeyFreshness::Idle
            } else {
                KeyFreshness::Live
            },
        }
    }

    /// Seconds since the last message on `key`, if one was ever recorded.
    pub fn idle_secs(&self, key: &str, now: u64) -> (r: Option<u64>)
        ensures
            r == self@.idle(key@, now),
    {
        match self.latest.get(key) {
            None => None,
            Some(l) => Some(elapsed(l.at, now) / NANOS_PER_SEC),
        }
    }

    /// Latest total application bandwidth in bytes/sec (last completed bucket).
    pub fn total_bytes_per_sec(&self) -> (n: u64)
        ensures
            n == self@.total_rate.latest(),
    {
        self.total_rate.latest()
    }

    /// Bandwidth history of a key (empty if idle/evicted).
    pub fn topic_rate_series(&self, key: &str) -> (v: Vec<u64>)
        ensures
            v@ == window_at(self@.rates, key@).samples,
    {
        match self.rates.get(key) {
            Some(w) => w.series(),
            None => Vec::new(),
        }
    }

    /// Latest bandwidth of a key (zero if idle/evicted).
    pub fn topic_bytes_per_sec(&self, key: &str) -> (n: u64)
        ensures
            n == window_at(self@.rates, key@).latest(),
    {
        match self.rates.get(key) {
            Some(w) => w.latest(),
            None => 0,
        }
    }
}

impl FeedModel {
    /// Seconds since the last message on a key.
    pub open spec fn idle(self, key: Seq<char>, now: u64) -> Option<u64> {
        if self.latest.dom().contains(key) {
            Some(since(self.latest[key].at, now) / NANOS_PER_SEC)
        } else {
            None
        }
    }

    /// Whether a key is publishing, has gone quiet, or has no payload yet.
    pub open spec fn freshness(self, key: Seq<char>, now: u64) -> KeyFreshness {
        match self.idle(key, now) {
            None => KeyFreshness::NoData,
            Some(secs) => if secs >= IDLE_DIM_SECS {
                KeyFreshness::Idle
            } else {
                KeyFreshness::Live
            },
        }
    }
}

// ---------------------------------------------------------------------------
// The once-a-second sweep
// ---------------------------------------------------------------------------

impl FeedModel {
    /// The keys that get a bucket this second: those with a rate already, and
    /// those that sent something.
    pub open spec fn swept(self, k: Seq<char>) -> bool {
        self.rates.dom().contains(k) || self.msg_counts.dom().contains(k)
    }

    /// The window of a key with this second's bucket in it.
    pub open spec fn next_window(self, k: Seq<char>) -> WindowModel {
        window_at(self.rates, k).pushed(bytes_at(self.byte_counts, k))
    }

    /// Whether a key has been idle for its whole window.
    pub open spec fn ran_dry(self, k: Seq<char>) -> bool {
        self.next_window(k).all_zero()
    }

    /// After a second of `nanos` was closed. Every key with a rate gets a bucket
    /// even if it received nothing, so that sparklines show real dips and an
    /// idle rate decays; a key idle for the whole window is dropped.
    pub open spec fn closed_second(self, nanos: u64, now: u64) -> FeedModel {
        FeedModel {
            rates: Map::new(
                |k: Seq<char>| self.swept(k) && !self.ran_dry(k),
                |k: Seq<char>| self.next_window(k),
            ),
            hz: Map::new(
                |k: Seq<char>|
                    if self.swept(k) {
                        !self.ran_dry(k)
                    } else {
                        self.hz.dom().contains(k)
                    },
                |k: Seq<char>|
                    if self.swept(k) {
                        Rate { messages: count_at(self.msg_counts, k), nanos }
                    } else {
                        self.hz[k]
                    },
            ),
            msg_counts: Map::empty(),
            byte_counts: Map::empty(),
            total_rate: self.total_rate.pushed(self.total_byte_count),
            total_hz: Rate { messages: self.total_msg_count, nanos },
            total_msg_count: 0,
            total_byte_count: 0,
            last_hz_update: now,
            ..self
        }
    }

    /// After the given keys were forgotten.
    pub open spec fn without(self, gone: Set<Seq<Seq<char>>>) -> FeedModel {
        FeedModel {
            latest: self.latest.remove_keys(of_keys(gone)),
            history: HistoryModel {
                rings: self.history.rings.remove_keys(of_keys(gone)),
                evicted: self.history.evicted,
            },
            msg_counts: self.msg_counts.remove_keys(of_keys(gone)),
            byte_counts: self.byte_counts.remove_keys(of_keys(gone)),
            hz: self.hz.remove_keys(of_keys(gone)),
            rates: self.rates.remove_keys(of_keys(gone)),
            keys_aged_out: counted_up(self.keys_aged_out, gone.len()),
            ..self
        }
    }

    /// Whether `gone` are the `n` longest-idle of the keys. Which of several equally
    /// idle ones go is left open.
    pub open spec fn longest_idle(
        self,
        keys: Set<Seq<Seq<char>>>,
        gone: Set<Seq<Seq<char>>>,
        n: nat,
    ) -> bool {
        &&& gone.finite()
        &&& gone.subset_of(keys)
        &&& gone.len() == n
        &&& forall|a: Seq<Seq<char>>, b: Seq<Seq<char>>|
            #![trigger gone.contains(a), keys.contains(b)]
            gone.contains(a) && keys.contains(b) && !gone.contains(b) ==> idler(self.latest, a, b)
    }
}

/// The texts that name one of the keys.
pub open spec fn of_keys(gone: Set<Seq<Seq<char>>>) -> Set<Seq<char>> {
    Set::new(|k: Seq<char>| gone.contains(segments(k)))
}

/// Whether a message with this name is the newest one of the key.
pub open spec fn names_key(
    latest: Map<Seq<char>, LatestModel>,
    name: Seq<char>,
    key: Seq<Seq<char>>,
) -> bool {
    latest.dom().contains(name) && segments(name) == key
}

/// Whether a key has been idle for at least as long as another: whatever was heard of
/// it, the other was heard from no earlier. A key without a message is the idlest.
pub open spec fn idler(
    latest: Map<Seq<char>, LatestModel>,
    a: Seq<Seq<char>>,
    b: Seq<Seq<char>>,
) -> bool {
    forall|x: Seq<char>| #[trigger]
        names_key(latest, x, a) ==> exists|y: Seq<char>| #[trigger]
            names_key(latest, y, b) && latest[x].at <= latest[y].at
}

impl Feed {
    /// Close the current second and start the next.
    pub(crate) fn close_second(&mut self, nanos: u64, now: u64)
        ensures
            final(self)@ == old(self)@.closed_second(nanos, now),
    {
        let ghost before = self@;
        let mut swept = KeySet::new();
        let with_rate = self.rates.keys();
        let mut i: usize = 0;
        while i < with_rate.len()
            invariant
                i <= with_rate.len(),
                forall|k: Seq<char>| #[trigger]
                    swept@.contains(k) <==> texts(with_rate@).take(i as int).contains(k),
            decreases with_rate.len() - i,
        {
            let ghost names = texts(with_rate@);
            let ghost held = swept@;
            swept.insert(with_rate[i].clone());
            i += 1;
            proof {
                lemma_take_contains(names, i - 1);
                assert(names[i - 1] == with_rate@[i - 1]@);
                assert(swept@ == held.insert(names[i - 1]));
                assert forall|k: Seq<char>| #[trigger] swept@.contains(k) <==> names.take(
                    i as int,
                ).contains(k) by {
                    assert(held.contains(k) <==> names.take(i - 1).contains(k));
                }
            }
        }
        let with_count = self.msg_counts.keys();
        proof {
            assert(texts(with_rate@).take(i as int) =~= texts(with_rate@));
            assert(before.rates.dom() =~= self.rates@.dom());
        }
        let mut j: usize = 0;
        while j < with_count.len()
            invariant
                j <= with_count.len(),
                forall|k: Seq<char>| #[trigger]
                    swept@.contains(k) <==> texts(with_rate@).contains(k) || texts(
                        with_count@,
                    ).take(j as int).contains(k),
            decreases with_count.len() - j,
        {
            let ghost names = texts(with_count@);
            let ghost held = swept@;
            swept.insert(with_count[j].clone());
            j += 1;
            proof {
                lemma_take_contains(names, j - 1);
                assert(names[j - 1] == with_count@[j - 1]@);
                assert(swept@ == held.insert(names[j - 1]));
                assert forall|k: Seq<char>| #[trigger] swept@.contains(k) <==> texts(
                    with_rate@,
                ).contains(k) || names.take(j as int).contains(k) by {
                    assert(held.contains(k) <==> texts(with_rate@).contains(k) || names.take(
                        j - 1,
                    ).contains(k));
                }
            }
        }
        let keys = swept.keys();
        let ghost names = texts(keys@);
        proof {
            assert(texts(with_count@).take(j as int) =~= texts(with_count@));
            assert forall|k: Seq<char>| names.contains(k) <==> before.swept(k) by {
                assert(swept@.contains(k) <==> names.contains(k));
                assert(before.rates.dom().contains(k) <==> self.rates@.dom().contains(k));
            }
            crate::keyed::lemma_ascending_distinct(names);
        }
        let mut n: usize = 0;
        while n < keys.len()
            invariant
                n <= keys.len(),
                names == texts(keys@),
                names.no_duplicates(),
                self@ == (FeedModel { rates: self@.rates, hz: self@.hz, ..before }),
                forall|k: Seq<char>| #[trigger]
                    self@.rates.dom().contains(k) <==> (if names.take(n as int).contains(k) {
                        !before.ran_dry(k)
                    } else {
                        before.rates.dom().contains(k)
                    }),
                forall|k: Seq<char>| #[trigger]
                    self@.rates.dom().contains(k) ==> self@.rates[k] == (if names.take(
                        n as int,
                    ).contains(k) {
                        before.next_window(k)
                    } else {
                        before.rates[k]
                    }),
                forall|k: Seq<char>| #[trigger]
                    self@.hz.dom().contains(k) <==> (if names.take(n as int).contains(k) {
                        !before.ran_dry(k)
                    } else {
                        before.hz.dom().contains(k)
                    }),
                forall|k: Seq<char>| #[trigger]
                    self@.hz.dom().contains(k) ==> self@.hz[k] == (if names.take(n as int).contains(
                        k,
                    ) {
                        (Rate { messages: count_at(before.msg_counts, k), nanos })
                    } else {
                        before.hz[k]
                    }),
            decreases keys.len() - n,
        {
            let key = &keys[n];
            let ghost k = key@;
            let ghost taken = names.take(n as int);
            proof {
                lemma_take_contains(names, n as int);
                assert(names[n as int] == k);
                assert(!taken.contains(k)) by {
                    if taken.contains(k) {
                        let p = taken.index_of(k);
                        assert(names[p] == names[n as int]);
                    }
                }
                assert(self@.rates.dom().contains(k) == before.rates.dom().contains(k));
            }
            let messages: u32 = match self.msg_counts.get(key.as_str()) {
                Some(c) => *c,
                None => 0,
            };
            let bytes: u64 = match self.byte_counts.get(key.as_str()) {
                Some(b) => *b,
                None => 0,
            };
            let ghost rates0 = self.rates@;
            let ghost here = self@;
            proof {
                assert(here.rates.dom().contains(k) == rates0.dom().contains(k));
                if rates0.dom().contains(k) {
                    assert(here.rates[k] == rates0[k]@);
                }
            }
            let held = self.rates.replace(key.as_str(), RateWindow::new(RATE_WINDOW_SECS));
            let mut window = match held {
                Some(w) => w,
                None => RateWindow::new(RATE_WINDOW_SECS),
            };
            assert(window@ == window_at(before.rates, k));
            window.push(bytes);
            assert(window@ == before.next_window(k));
            // Topics idle for the whole window are dropped to bound memory.
            if window.is_all_zero() {
                let _ = self.rates.remove(key.as_str());
                let _ = self.hz.remove(key.as_str());
                proof {
                    assert(self@.rates =~= here.rates.remove(k));
                }
            } else {
                self.rates.insert(key.clone(), window);
                self.hz.insert(key.clone(), Rate { messages, nanos });
                proof {
                    assert(self@.rates =~= here.rates.insert(k, before.next_window(k)));
                }
            }
            n += 1;
        }
        proof {
            assert(names.take(n as int) =~= names);
        }
        self.msg_counts.clear();
        self.byte_counts.clear();
        self.total_rate.push(self.total_byte_count);
        self.total_hz = Rate { messages: self.total_msg_count, nanos };
        self.total_msg_count = 0;
        self.total_byte_count = 0;
        self.last_hz_update = now;
        proof {
            let after = before.closed_second(nanos, now);
            assert(self@.rates =~= after.rates);
            assert(self@.hz =~= after.hz);
        }
    }
}

/// What stands in one element more of a list.
proof fn lemma_take_contains(s: Seq<Seq<char>>, i: int)
    requires
        0 <= i < s.len(),
    ensures
        forall|x: Seq<char>| s.take(i + 1).contains(x) <==> s.take(i).contains(x) || x == s[i],
{
    assert forall|x: Seq<char>| s.take(i + 1).contains(x) <==> s.take(i).contains(x) || x
        == s[i] by {
        if s.take(i + 1).contains(x) {
            let p = s.take(i + 1).index_of(x);
            if p < i {
                assert(s.take(i)[p] == x);
            }
        }
        if s.take(i).contains(x) {
            let p = s.take(i).index_of(x);
            assert(s.take(i + 1)[p] == x);
        }
        assert(s.take(i + 1)[i] == s[i]);
    }
}

} // verus!
