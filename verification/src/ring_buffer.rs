//! A fixed-size ring of signal timestamps.
//!
//! Timestamps are nanoseconds on one monotonic clock, counted from an origin
//! that the caller chooses. The ring keeps the most recent `capacity`
//! timestamps; older ones are overwritten.
use vstd::prelude::*;

verus! {

/// Time elapsed from `then` to `now`, or zero when `then` is later than `now`.
pub open spec fn elapsed(now: u64, then: u64) -> nat {
    if now >= then {
        (now - then) as nat
    } else {
        0
    }
}

/// The signal stamped `stamp` lies within `window` of `now`.
pub open spec fn is_within(now: u64, window: u64, stamp: u64) -> bool {
    elapsed(now, stamp) <= window
}

/// How many of `stamps` (oldest first, newest last), counted back from the
/// newest, lie within `window` of `now` before the first one that does not.
pub open spec fn count_recent(stamps: Seq<u64>, now: u64, window: u64) -> nat
    decreases stamps.len(),
{
    if stamps.len() == 0 {
        0
    } else if is_within(now, window, stamps.last()) {
        1 + count_recent(stamps.drop_last(), now, window)
    } else {
        0
    }
}

/// The last `n` elements of `s`, or all of `s` where it has no more than `n`.
pub open spec fn keep_last(s: Seq<u64>, n: nat) -> Seq<u64> {
    if s.len() > n {
        s.subrange(s.len() - n, s.len() as int)
    } else {
        s
    }
}

/// The timestamps never decrease from the oldest to the newest.
pub open spec fn non_decreasing(s: Seq<u64>) -> bool {
    forall|a: int, b: int| 0 <= a <= b < s.len() ==> s[a] <= s[b]
}

/// Never more timestamps are counted than are held.
pub proof fn lemma_count_recent_bound(s: Seq<u64>, now: u64, window: u64)
    ensures
        count_recent(s, now, window) <= s.len(),
    decreases s.len(),
{
    if s.len() > 0 {
        lemma_count_recent_bound(s.drop_last(), now, window);
    }
}

/// Dropping the oldest timestamp loses a counted one only where every
/// held timestamp was counted.
pub proof fn lemma_count_recent_drop_oldest(s: Seq<u64>, now: u64, window: u64)
    requires
        s.len() >= 1,
    ensures
        count_recent(s.subrange(1, s.len() as int), now, window) == if count_recent(
            s,
            now,
            window,
        ) < s.len() {
            count_recent(s, now, window)
        } else {
            (s.len() - 1) as nat
        },
    decreases s.len(),
{
    lemma_count_recent_bound(s, now, window);
    let rest = s.subrange(1, s.len() as int);
    if s.len() > 1 {
        assert(rest.last() == s.last());
        assert(rest.drop_last() =~= s.drop_last().subrange(1, s.len() - 1));
        lemma_count_recent_drop_oldest(s.drop_last(), now, window);
    }
}

/// What the count means, in the arithmetic of the timestamps themselves:
/// every counted timestamp `t` (the newest `count` ones) has `now <= t + window`,
/// that is, it is at most `window` older than `now` (a timestamp later than `now`
/// is zero old); and where the count stops short of all held timestamps, the
/// next older one has `t + window < now`, more than `window` older than `now`.
pub proof fn lemma_count_recent_exact(s: Seq<u64>, now: u64, window: u64)
    ensures
        count_recent(s, now, window) <= s.len(),
        forall|j: int|
            s.len() - count_recent(s, now, window) <= j < s.len() ==> now <= s[j] + window,
        count_recent(s, now, window) < s.len() ==> s[s.len() - 1 - count_recent(s, now, window)]
            + window < now,
    decreases s.len(),
{
    if s.len() > 0 {
        let d = s.drop_last();
        lemma_count_recent_exact(d, now, window);
        if is_within(now, window, s.last()) {
            assert forall|j: int|
                s.len() - count_recent(s, now, window) <= j < s.len() implies now <= s[j]
                + window by {
                if j < s.len() - 1 {
                    assert(s[j] == d[j]);
                }
            }
            if count_recent(s, now, window) < s.len() {
                assert(s[s.len() - 1 - count_recent(s, now, window)] == d[d.len() - 1
                    - count_recent(d, now, window)]);
            }
        }
    }
}

/// Where the timestamps are in clock order, the count is exactly how many
/// held timestamps `t` have `now <= t + window`.
pub proof fn lemma_count_in_order_exact(s: Seq<u64>, now: u64, window: u64)
    requires
        non_decreasing(s),
    ensures
        count_recent(s, now, window) == s.filter(|t: u64| now <= t + window).len(),
    decreases s.len(),
{
    reveal_with_fuel(Seq::filter, 1);
    if s.len() > 0 {
        let d = s.drop_last();
        assert(non_decreasing(d));
        lemma_count_in_order_exact(d, now, window);
        if !is_within(now, window, s.last()) && d.len() > 0 {
            assert(d.last() <= s.last());
        }
    }
}

/// A later `now` never counts more signals.
pub proof fn lemma_count_later_now(s: Seq<u64>, now: u64, later: u64, window: u64)
    requires
        now <= later,
    ensures
        count_recent(s, later, window) <= count_recent(s, now, window),
    decreases s.len(),
{
    if s.len() > 0 {
        lemma_count_later_now(s.drop_last(), now, later, window);
    }
}

/// A wider window never counts fewer signals.
pub proof fn lemma_count_wider_window(s: Seq<u64>, now: u64, window: u64, wider: u64)
    requires
        window <= wider,
    ensures
        count_recent(s, now, window) <= count_recent(s, now, wider),
    decreases s.len(),
{
    if s.len() > 0 {
        lemma_count_wider_window(s.drop_last(), now, window, wider);
    }
}

/// A window that reaches back to the clock's origin counts every held signal.
pub proof fn lemma_count_whole_window(s: Seq<u64>, now: u64, window: u64)
    requires
        now <= window,
    ensures
        count_recent(s, now, window) == s.len(),
    decreases s.len(),
{
    if s.len() > 0 {
        lemma_count_whole_window(s.drop_last(), now, window);
    }
}

/// Where the newest held signal is more than `window` older than `now`,
/// nothing is counted.
pub proof fn lemma_count_stale_newest(s: Seq<u64>, now: u64, window: u64)
    requires
        s.len() > 0,
        s.last() + window < now,
    ensures
        count_recent(s, now, window) == 0,
{
}

/// A fresh ring, which holds nothing, counts no signals.
pub proof fn lemma_empty_counts_nothing(now: u64, window: u64)
    ensures
        count_recent(Seq::<u64>::empty(), now, window) == 0,
{
}

/// Pushing onto a ring that keeps the last `n` timestamps, and keeping the
/// last `n` of the result, is keeping the last `n` of everything pushed:
/// the ring holds the last `n` timestamps of its whole history.
pub proof fn lemma_keep_last_push(s: Seq<u64>, v: u64, n: nat)
    requires
        n > 0,
    ensures
        keep_last(keep_last(s, n).push(v), n) == keep_last(s.push(v), n),
{
    assert(keep_last(keep_last(s, n).push(v), n) =~= keep_last(s.push(v), n));
}

/// Counting the signals of a ring after a push: a timestamp within the
/// window raises the count by one, up to the capacity; one outside the
/// window brings the count to zero.
pub proof fn lemma_push_then_count(s: Seq<u64>, n: nat, v: u64, now: u64, window: u64)
    requires
        n > 0,
        s.len() <= n,
    ensures
        count_recent(keep_last(s.push(v), n), now, window) == if is_within(now, window, v) {
            if count_recent(s, now, window) + 1 < n {
                count_recent(s, now, window) + 1
            } else {
                n
            }
        } else {
            0
        },
{
    lemma_count_recent_bound(s, now, window);
    let t = keep_last(s.push(v), n);
    if s.len() < n {
        assert(t.drop_last() =~= s);
    } else {
        assert(t.last() == v);
        assert(t.drop_last() =~= s.subrange(1, s.len() as int));
        lemma_count_recent_drop_oldest(s, now, window);
    }
}

/// Where the timestamps never decrease, as a monotonic clock gives them,
/// the count is exactly how many held timestamps lie within the window.
pub proof fn lemma_count_in_order(s: Seq<u64>, now: u64, window: u64)
    requires
        non_decreasing(s),
    ensures
        count_recent(s, now, window) == s.filter(|t: u64| is_within(now, window, t)).len(),
    decreases s.len(),
{
    reveal_with_fuel(Seq::filter, 1);
    if s.len() > 0 {
        let d = s.drop_last();
        assert(non_decreasing(d));
        lemma_count_in_order(d, now, window);
        if !is_within(now, window, s.last()) && d.len() > 0 {
            assert(d.last() <= s.last());
        }
    }
}

/// Pushing timestamps in clock order keeps the held timestamps in order.
pub proof fn lemma_push_keeps_order(s: Seq<u64>, v: u64, n: nat)
    requires
        non_decreasing(s),
        s.len() > 0 ==> s.last() <= v,
    ensures
        non_decreasing(keep_last(s.push(v), n)),
{
    let t = s.push(v);
    assert(non_decreasing(t));
}

/// A ring buffer of signal timestamps.
pub struct RingBuffer {
    buf: Vec<u64>,
    write_idx: usize,
    values_inserted: usize,
}

impl RingBuffer {
    /// The number of slots.
    pub closed spec fn cap(&self) -> nat {
        self.buf.len() as nat
    }

    /// The number of timestamps pushed since the buffer was made.
    pub closed spec fn inserted(&self) -> nat {
        self.values_inserted as nat
    }

    /// Well-formedness: the write index stands inside the ring, and past
    /// the first slot once anything has been pushed.
    pub closed spec fn wf(&self) -> bool {
        &&& self.write_idx <= self.buf.len()
        &&& self.values_inserted > 0 ==> self.write_idx >= 1
    }

    /// How many timestamps the ring holds.
    closed spec fn held(&self) -> int {
        if self.values_inserted < self.buf.len() {
            self.values_inserted as int
        } else {
            self.buf.len() as int
        }
    }

    /// The slot of the `m`-th held timestamp, oldest first.
    closed spec fn slot(&self, m: int) -> int {
        let p = self.write_idx - self.held() + m;
        if p >= 0 {
            p
        } else {
            p + self.buf.len()
        }
    }

    /// The ring holds the last `min(inserted, capacity)` timestamps pushed.
    pub proof fn lemma_view_len(&self)
        requires
            self.wf(),
        ensures
            self@.len() == if self.inserted() < self.cap() {
                self.inserted()
            } else {
                self.cap()
            },
    {
    }

    /// The count of signals after a push follows from the count before it:
    /// one more, up to the capacity, where the new timestamp lies within
    /// the window; none where it does not.
    pub proof fn lemma_push_then_signals(
        before: RingBuffer,
        val: u64,
        after: RingBuffer,
        now: u64,
        duration: u64,
    )
        requires
            before.wf(),
            before.cap() > 0,
            after@ == keep_last(before@.push(val), before.cap()),
        ensures
            count_recent(after@, now, duration) == if is_within(now, duration, val) {
                if count_recent(before@, now, duration) + 1 < before.cap() {
                    count_recent(before@, now, duration) + 1
                } else {
                    before.cap()
                }
            } else {
                0
            },
    {
        before.lemma_view_len();
        lemma_push_then_count(before@, before.cap(), val, now, duration);
    }

    /// Makes a ring with `buf_size` slots and nothing pushed.
    pub fn new(buf_size: usize) -> (rb: RingBuffer)
        ensures
            rb.wf(),
            rb.cap() == buf_size,
            rb.inserted() == 0,
            rb@ == Seq::<u64>::empty(),
    {
        let mut buf: Vec<u64> = Vec::new();
        let mut k: usize = 0;
        while k < buf_size
            invariant
                buf.len() == k,
                k <= buf_size,
            decreases buf_size - k,
        {
            buf.push(0);
            k += 1;
        }
        let rb = RingBuffer { buf, write_idx: 0, values_inserted: 0 };
        assert(rb@ =~= Seq::<u64>::empty());
        rb
    }

    /// The number of slots.
    pub fn capacity(&self) -> (n: usize)
        ensures
            n == self.cap(),
    {
        self.buf.len()
    }

    /// The number of timestamps pushed since the buffer was made.
    pub fn values_inserted(&self) -> (n: usize)
        ensures
            n == self.inserted(),
    {
        self.values_inserted
    }

    /// Stores `val` as the newest timestamp, overwriting the oldest one
    /// when every slot is taken.
    pub fn push(&mut self, val: u64)
        requires
            old(self).wf(),
            old(self).cap() > 0,
            old(self).inserted() < usize::MAX,
        ensures
            final(self).wf(),
            final(self).cap() == old(self).cap(),
            final(self).inserted() == old(self).inserted() + 1,
            final(self)@ == keep_last(old(self)@.push(val), old(self).cap()),
    {
        let ghost pre = *self;
        if self.write_idx == self.buf.len() {
            self.write_idx = 0;
        }
        let w = self.write_idx;
        self.buf.set(w, val);
        self.write_idx = w + 1;
        self.values_inserted += 1;
        proof {
            let target = keep_last(pre@.push(val), pre.cap());
            assert(self@ =~= target);
        }
    }

    /// How many of the held timestamps, counted back from the newest, lie
    /// within `duration` of `now` before the first one that does not.
    pub fn signals_within_duration(&self, now: u64, duration: u64) -> (n: usize)
        requires
            self.wf(),
        ensures
            n == count_recent(self@, now, duration),
            n <= self@.len(),
            forall|j: int| self@.len() - n <= j < self@.len() ==> now <= self@[j] + duration,
            n < self@.len() ==> self@[self@.len() - 1 - n] + duration < now,
    {
        proof {
            lemma_count_recent_exact(self@, now, duration);
        }
        if self.values_inserted == 0 {
            assert(self@.len() == 0);
            return 0;
        }
        let max_number_items_to_traverse = if self.values_inserted < self.buf.len() {
            self.values_inserted
        } else {
            self.buf.len()
        };
        let ghost s = self@;
        let mut i: usize = self.write_idx - 1;
        let mut number_signals: usize = 0;
        assert(s.take(s.len() as int) =~= s);
        while number_signals < max_number_items_to_traverse
            invariant
                self.wf(),
                self.values_inserted > 0,
                s == self@,
                max_number_items_to_traverse == s.len(),
                number_signals <= max_number_items_to_traverse,
                i < self.buf.len(),
                number_signals < max_number_items_to_traverse ==> i == self.slot(
                    max_number_items_to_traverse - 1 - number_signals,
                ),
                count_recent(s, now, duration) == number_signals + count_recent(
                    s.take(max_number_items_to_traverse - number_signals),
                    now,
                    duration,
                ),
            ensures
                number_signals == count_recent(s, now, duration),
                number_signals <= s.len(),
            decreases max_number_items_to_traverse - number_signals,
        {
            let ghost rest = s.take(max_number_items_to_traverse - number_signals);
            assert(rest.last() == s[max_number_items_to_traverse - 1 - number_signals]);
            assert(rest.drop_last() =~= s.take(
                max_number_items_to_traverse - number_signals - 1,
            ));
            let stamp = self.buf[i];
            let diff = if now >= stamp {
                now - stamp
            } else {
                0
            };
            if diff > duration {
                break;
            }
            number_signals += 1;
            if i == 0 {
                i = self.buf.len() - 1;
            } else {
                i -= 1;
            }
        }
        assert(s.take(0) =~= Seq::<u64>::empty());
        number_signals
    }
}

impl View for RingBuffer {
    type V = Seq<u64>;

    /// The held timestamps, oldest first, newest last.
    closed spec fn view(&self) -> Seq<u64> {
        Seq::new(self.held() as nat, |m: int| self.buf@[self.slot(m)])
    }
}

} // verus!
