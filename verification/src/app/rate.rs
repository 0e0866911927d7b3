//! Rates and bandwidth: the per-second accounting the sparklines read.
use std::collections::VecDeque;

use vstd::prelude::*;

use crate::text::{cat, decimal, decimal_text, digit};

verus! {

/// How many 1-second buckets of rate history to keep for sparklines.
pub const RATE_WINDOW_SECS: usize = 30;

/// A bounded ring buffer of per-second byte counts, used for bandwidth
/// sparklines. Idle seconds are recorded as `0` buckets so a topic that goes
/// quiet shows a real dip rather than a stale value.
#[derive(Debug, Clone)]
pub struct RateWindow {
    pub samples: VecDeque<u64>,
    pub cap: usize,
}

/// A window, as a mathematical value.
pub struct WindowModel {
    pub samples: Seq<u64>,
    pub cap: usize,
}

impl View for RateWindow {
    type V = WindowModel;

    open spec fn view(&self) -> WindowModel {
        WindowModel { samples: self.samples@, cap: self.cap }
    }
}

/// At most the last `cap` of a list.
pub open spec fn last_of(s: Seq<u64>, cap: nat) -> Seq<u64> {
    if s.len() > cap {
        s.skip(s.len() - cap)
    } else {
        s
    }
}

impl WindowModel {
    pub open spec fn empty(cap: usize) -> WindowModel {
        WindowModel { samples: Seq::empty(), cap }
    }

    pub open spec fn pushed(self, bytes: u64) -> WindowModel {
        WindowModel { samples: last_of(self.samples.push(bytes), self.cap as nat), ..self }
    }

    pub open spec fn latest(self) -> u64 {
        if self.samples.len() > 0 {
            self.samples.last()
        } else {
            0
        }
    }

    pub open spec fn all_zero(self) -> bool {
        forall|i: int| 0 <= i < self.samples.len() ==> #[trigger] self.samples[i] == 0
    }
}

impl RateWindow {
    pub fn new(cap: usize) -> (w: RateWindow)
        ensures
            w@ == WindowModel::empty(cap),
    {
        RateWindow { samples: VecDeque::new(), cap }
    }

    /// Record one completed 1-second bucket, evicting the oldest beyond `cap`.
    pub fn push(&mut self, bytes: u64)
        ensures
            final(self)@ == old(self)@.pushed(bytes),
    {
        let ghost all = self.samples@.push(bytes);
        self.samples.push_back(bytes);
        assert(all.skip(0) =~= all);
        while self.samples.len() > self.cap
            invariant
                self.cap == old(self).cap,
                self.samples@.len() <= all.len(),
                self.samples@ == all.skip(all.len() - self.samples@.len()),
                self.samples@.len() >= all.len() || self.samples@.len() >= self.cap,
            decreases self.samples@.len(),
        {
            let ghost before = self.samples@;
            let _ = self.samples.pop_front();
            assert(self.samples@ =~= all.skip(all.len() - self.samples@.len()));
        }
        assert(self.samples@ =~= last_of(all, self.cap as nat));
    }

    pub fn latest(&self) -> (b: u64)
        ensures
            b == self@.latest(),
    {
        if self.samples.len() > 0 {
            self.samples[self.samples.len() - 1]
        } else {
            0
        }
    }

    pub fn is_all_zero(&self) -> (r: bool)
        ensures
            r == self@.all_zero(),
    {
        let mut i: usize = 0;
        while i < self.samples.len()
            invariant
                i <= self.samples@.len(),
                forall|k: int| 0 <= k < i ==> #[trigger] self.samples@[k] == 0,
            decreases self.samples@.len() - i,
        {
            if self.samples[i] != 0 {
                assert(self@.samples[i as int] != 0);
                return false;
            }
            i += 1;
        }
        true
    }

    pub fn series(&self) -> (v: Vec<u64>)
        ensures
            v@ == self@.samples,
    {
        let mut v: Vec<u64> = Vec::new();
        let mut i: usize = 0;
        while i < self.samples.len()
            invariant
                i <= self.samples@.len(),
                v@ == self.samples@.take(i as int),
            decreases self.samples@.len() - i,
        {
            v.push(self.samples[i]);
            i += 1;
            assert(self.samples@.take(i as int) =~= self.samples@.take(i as int - 1).push(
                self.samples@[i as int - 1],
            ));
        }
        assert(self.samples@.take(i as int) =~= self.samples@);
        v
    }
}

/// The window never outgrows its cap, and what it holds are the most recent
/// buckets in order.
pub proof fn law_window_keeps_the_most_recent(w: WindowModel, bytes: u64)
    requires
        w.samples.len() <= w.cap,
    ensures
        w.pushed(bytes).samples.len() <= w.cap,
        w.cap > 0 ==> w.pushed(bytes).latest() == bytes,
        w.samples.len() < w.cap ==> w.pushed(bytes).samples == w.samples.push(bytes),
        0 < w.samples.len() == w.cap ==> w.pushed(bytes).samples == w.samples.drop_first().push(
            bytes,
        ),
{
    if 0 < w.samples.len() == w.cap {
        assert(w.samples.push(bytes).skip(1) =~= w.samples.drop_first().push(bytes));
    }
}

/// A message rate: so many messages in so many nanoseconds.
#[derive(Debug, Clone, Copy, PartialEq, Eq, Structural)]
pub struct Rate {
    pub messages: u32,
    pub nanos: u64,
}

/// Whether `a` is a higher rate than `b`.
pub open spec fn faster(a: Rate, b: Rate) -> bool {
    a.messages * b.nanos > b.messages * a.nanos
}

impl Rate {
    /// Whether this is a higher rate than `other`.
    pub fn is_faster(&self, other: &Rate) -> (r: bool)
        ensures
            r == faster(*self, *other),
    {
        let a: u128 = self.messages as u128;
        let b: u128 = other.messages as u128;
        let p: u128 = self.nanos as u128;
        let q: u128 = other.nanos as u128;
        assert(a * q <= 0xffff_ffffu128 * 0xffff_ffff_ffff_ffffu128) by (nonlinear_arith)
            requires
                a <= 0xffff_ffff,
                q <= 0xffff_ffff_ffff_ffff,
        ;
        assert(b * p <= 0xffff_ffffu128 * 0xffff_ffff_ffff_ffffu128) by (nonlinear_arith)
            requires
                b <= 0xffff_ffff,
                p <= 0xffff_ffff_ffff_ffff,
        ;
        a * q > b * p
    }
}

// ---------------------------------------------------------------------------
// Bandwidth text
// ---------------------------------------------------------------------------

/// `n / d` to the nearest integer, halves to the even one.
#[verifier::inline]
pub open spec fn round_half_even(n: nat, d: nat) -> nat {
    let q = n / d;
    let r = n % d;
    if 2 * r > d || (2 * r == d && q % 2 == 1) {
        q + 1
    } else {
        q
    }
}

/// The distance between neighbouring doubles around `n`: 1 while 53 bits hold it.
pub open spec fn spacing(n: nat) -> nat
    decreases n,
{
    if n < 0x20_0000_0000_0000 {
        1
    } else {
        2 * spacing(n / 2)
    }
}

/// The double nearest to an integer, as an integer: itself while 53 bits hold it.
pub open spec fn nearest_double(n: nat) -> nat {
    if n < 0x20_0000_0000_0000 {
        n
    } else {
        round_half_even(n, spacing(n)) * spacing(n)
    }
}

/// `n / d` with one decimal.
#[verifier::inline]
pub open spec fn one_decimal(n: nat, d: nat) -> Seq<char> {
    let tenths = round_half_even(n * 10, d);
    decimal(tenths / 10) + "."@ + seq![digit(tenths)]
}

/// Bytes per second in the largest unit that fits.
pub open spec fn bandwidth(bytes: u64) -> Seq<char> {
    let b = nearest_double(bytes as nat);
    if b >= 1_048_576 {
        one_decimal(b, 1_048_576) + " MB/s"@
    } else if b >= 1024 {
        one_decimal(b, 1024) + " KB/s"@
    } else {
        decimal(bytes as nat) + " B/s"@
    }
}

fn rounded(n: u128, d: u128) -> (r: u128)
    requires
        d > 0,
        d < 0x8000_0000_0000_0000_0000,
        n < 0x1_0000_0000_0000_0000_0000_0000,
    ensures
        r == round_half_even(n as nat, d as nat),
{
    let q: u128 = n / d;
    let rest: u128 = n % d;
    assert(q <= n) by (nonlinear_arith)
        requires
            q == n / d,
            d > 0,
    ;
    if 2 * rest > d || (2 * rest == d && q % 2 == 1) {
        q + 1
    } else {
        q
    }
}

proof fn lemma_spacing(n: nat)
    requires
        n < 0x1_0000_0000_0000_0000,
    ensures
        1 <= spacing(n) <= 2048,
{
    reveal_with_fuel(spacing, 13);
}

fn spacing_of(n: u64) -> (s: u64)
    ensures
        s == spacing(n as nat),
        1 <= s <= 2048,
    decreases n,
{
    proof {
        lemma_spacing(n as nat);
    }
    if n < 0x20_0000_0000_0000 {
        1
    } else {
        let half: u64 = spacing_of(n / 2);
        2 * half
    }
}

fn one_decimal_text(n: u128, d: u128) -> (s: String)
    requires
        1024 <= d <= 1_048_576,
        n <= 0x1_0000_0000_0000_0800,
    ensures
        s@ == one_decimal(n as nat, d as nat),
{
    let tenths: u128 = rounded(n * 10, d);
    proof {
        let q = (n * 10) as nat / d as nat;
        assert(q <= 0x1_0000_0000_0000_0800 * 10 / 1024) by (nonlinear_arith)
            requires
                q == (n * 10) as nat / d as nat,
                n <= 0x1_0000_0000_0000_0800,
                d >= 1024,
        ;
    }
    let whole: u64 = (tenths / 10) as u64;
    let part: u64 = (tenths % 10) as u64;
    let mut s = decimal_text(whole);
    s.append(".");
    s.append(decimal_text(part).as_str());
    proof {
        assert(decimal(part as nat) =~= seq![digit(part as nat)]);
        assert(digit(part as nat) == digit(tenths as nat));
    }
    s
}

fn double_of(n: u64) -> (b: u128)
    ensures
        b == nearest_double(n as nat),
        b <= 0x1_0000_0000_0000_0800,
{
    if n < 0x20_0000_0000_0000 {
        return n as u128;
    }
    let unit: u64 = spacing_of(n);
    let steps: u128 = rounded(n as u128, unit as u128);
    proof {
        let q = n as nat / unit as nat;
        assert(q <= n) by (nonlinear_arith)
            requires
                q == n as nat / unit as nat,
                unit >= 1,
        ;
        assert(steps <= q + 1);
        assert(steps * unit <= n + unit) by (nonlinear_arith)
            requires
                steps <= q + 1,
                q == n as nat / unit as nat,
                unit >= 1,
        ;
    }
    steps * (unit as u128)
}

/// Bytes per second in the largest unit that fits.
pub fn format_bytes_per_sec(bytes: u64) -> (s: String)
    ensures
        s@ == bandwidth(bytes),
{
    let b: u128 = double_of(bytes);
    if b >= 1_048_576 {
        cat(one_decimal_text(b, 1_048_576).as_str(), " MB/s")
    } else if b >= 1024 {
        cat(one_decimal_text(b, 1024).as_str(), " KB/s")
    } else {
        cat(decimal_text(bytes).as_str(), " B/s")
    }
}

} // verus!
