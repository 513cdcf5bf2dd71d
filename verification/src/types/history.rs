use std::collections::VecDeque;
use vstd::prelude::*;

use crate::utils::format::{as_f64_exec, as_f64_value, lemma_small_counts_are_exact, F64_EXACT_BOUND};

verus! {

/// History of network speed measurements over time.
///
/// A fixed-capacity ring buffer ([`VecDeque`]) so that pushing a sample and
/// evicting the oldest one are both O(1). Each sample has an RX and a TX
/// speed and a timestamp: the number of samples pushed before it since the
/// history was created or last cleared.
#[derive(Debug, Clone)]
pub struct SpeedHistory<T> {
    pub rx_speeds: VecDeque<T>,
    pub tx_speeds: VecDeque<T>,
    pub timestamps: VecDeque<u64>,
}

/// `s` without its first `k` elements (empty when it has no more than `k`).
pub open spec fn drop_front<A>(s: Seq<A>, k: nat) -> Seq<A> {
    if k >= s.len() {
        Seq::empty()
    } else {
        s.skip(k as int)
    }
}

/// The timestamp that follows the newest of `timestamps`: 0 for an empty
/// history, else the newest plus one as `f64` arithmetic gives it, rounded to
/// the nearest `f64` (ties to even). Below two to the 53rd that is exactly
/// the newest plus one; from there on the sum may round down or up.
pub open spec fn next_timestamp(timestamps: Seq<u64>) -> nat {
    if timestamps.len() == 0 {
        0
    } else {
        as_f64_value((timestamps.last() + 1) as nat)
    }
}

/// The next timestamp fits in a `u64`.
pub open spec fn next_timestamp_fits(timestamps: Seq<u64>) -> bool {
    timestamps.len() == 0 || (timestamps.last() < u64::MAX && next_timestamp(timestamps)
        <= u64::MAX)
}

/// How many of the oldest samples a push evicts: the excess of the RX buffer
/// over `max_size` once the new sample is in.
pub open spec fn evicted_count(rx_len: nat, max_size: nat) -> nat {
    if rx_len + 1 > max_size {
        (rx_len + 1 - max_size) as nat
    } else {
        0
    }
}

impl<T> SpeedHistory<T> {
    /// The three buffers have the same length.
    pub open spec fn wf(&self) -> bool {
        &&& self.tx_speeds@.len() == self.rx_speeds@.len()
        &&& self.timestamps@.len() == self.rx_speeds@.len()
    }

    /// Create a new empty speed history.
    pub fn new() -> (history: Self)
        ensures
            history.rx_speeds@ == Seq::<T>::empty(),
            history.tx_speeds@ == Seq::<T>::empty(),
            history.timestamps@ == Seq::<u64>::empty(),
    {
        SpeedHistory { rx_speeds: VecDeque::new(), tx_speeds: VecDeque::new(), timestamps: VecDeque::new() }
    }

    /// Whether the timestamp of a new sample fits in a `u64` (it does unless
    /// the newest timestamp is within one `f64` step of the largest `u64`).
    pub fn can_push(&self) -> (fits: bool)
        ensures
            fits == next_timestamp_fits(self.timestamps@),
    {
        let n = self.timestamps.len();
        if n == 0 {
            return true;
        }
        let last = self.timestamps[n - 1];
        last < u64::MAX && as_f64_exec(last + 1) <= u64::MAX as u128
    }

    /// Add a new speed measurement, evicting the oldest samples while the RX
    /// buffer holds more than `max_size`.
    pub fn push(&mut self, rx: T, tx: T, max_size: usize)
        requires
            next_timestamp_fits(old(self).timestamps@),
        ensures
            ({
                let k = evicted_count(old(self).rx_speeds@.len(), max_size as nat);
                &&& final(self).rx_speeds@ == drop_front(old(self).rx_speeds@.push(rx), k)
                &&& final(self).tx_speeds@ == drop_front(old(self).tx_speeds@.push(tx), k)
                &&& final(self).timestamps@ == drop_front(
                    old(self).timestamps@.push(next_timestamp(old(self).timestamps@) as u64),
                    k,
                )
            }),
            final(self).rx_speeds@.len() <= max_size,
            max_size > 0 ==> final(self).rx_speeds@.last() == rx,
            old(self).wf() ==> final(self).wf(),
    {
        let n = self.timestamps.len();
        let timestamp: u64 = if n == 0 {
            0
        } else {
            let last = self.timestamps[n - 1];
            as_f64_exec(last + 1) as u64
        };
        let ghost t = next_timestamp(old(self).timestamps@) as u64;
        assert(timestamp == t);

        self.rx_speeds.push_back(rx);
        self.tx_speeds.push_back(tx);
        self.timestamps.push_back(timestamp);

        let ghost rx0 = self.rx_speeds@;
        let ghost tx0 = self.tx_speeds@;
        let ghost ts0 = self.timestamps@;
        let ghost mut popped: nat = 0;
        while self.rx_speeds.len() > max_size
            invariant
                rx0 == old(self).rx_speeds@.push(rx),
                tx0 == old(self).tx_speeds@.push(tx),
                ts0 == old(self).timestamps@.push(t),
                popped <= rx0.len(),
                self.rx_speeds@ == rx0.skip(popped as int),
                self.tx_speeds@ == drop_front(tx0, popped),
                self.timestamps@ == drop_front(ts0, popped),
                popped <= evicted_count(old(self).rx_speeds@.len(), max_size as nat),
                self.rx_speeds@.len() > max_size ==> popped < evicted_count(
                    old(self).rx_speeds@.len(),
                    max_size as nat,
                ),
                popped > 0 ==> self.rx_speeds@.len() >= max_size,
            decreases self.rx_speeds@.len(),
        {
            self.rx_speeds.pop_front();
            self.tx_speeds.pop_front();
            self.timestamps.pop_front();
            proof {
                popped = popped + 1;
                assert(self.rx_speeds@ =~= rx0.skip(popped as int));
                assert(self.tx_speeds@ =~= drop_front(tx0, popped));
                assert(self.timestamps@ =~= drop_front(ts0, popped));
            }
        }
        proof {
            let k = evicted_count(old(self).rx_speeds@.len(), max_size as nat);
            assert(popped == k);
            if k == 0 {
                assert(rx0.skip(0) =~= rx0);
            }
        }
    }


    /// Reset the history to empty.
    pub fn clear(&mut self)
        ensures
            final(self).rx_speeds@ == Seq::<T>::empty(),
            final(self).tx_speeds@ == Seq::<T>::empty(),
            final(self).timestamps@ == Seq::<u64>::empty(),
    {
        self.rx_speeds.clear();
        self.tx_speeds.clear();
        self.timestamps.clear();
    }
}

impl<T> Default for SpeedHistory<T> {
    fn default() -> (history: Self)
        ensures
            history.rx_speeds@ == Seq::<T>::empty(),
            history.tx_speeds@ == Seq::<T>::empty(),
            history.timestamps@ == Seq::<u64>::empty(),
    {
        Self::new()
    }
}

/// The RX buffer after pushing the samples `xs`, in order, onto a buffer
/// that held `start`, with capacity `max_size` each time.
pub open spec fn window_after_pushes<A>(start: Seq<A>, xs: Seq<A>, max_size: nat) -> Seq<A>
    decreases xs.len(),
{
    if xs.len() == 0 {
        start
    } else {
        let prev = window_after_pushes(start, xs.drop_last(), max_size);
        drop_front(prev.push(xs.last()), evicted_count(prev.len(), max_size))
    }
}

/// The newest `n` elements of `s` (all of them when it has fewer).
pub open spec fn newest<A>(s: Seq<A>, n: nat) -> Seq<A> {
    if s.len() > n {
        s.skip(s.len() - n)
    } else {
        s
    }
}

/// Consecutive timestamps: each one is the previous plus one.
pub open spec fn is_consecutive(timestamps: Seq<u64>) -> bool {
    forall|i: int| 0 <= i < timestamps.len() - 1 ==> #[trigger] timestamps[i + 1] == timestamps[i] + 1
}

/// A history that starts empty and receives the samples `xs` with a fixed
/// capacity holds exactly the newest `max_size` of them, in order: an old
/// spike leaves the window once enough newer samples have arrived.
pub proof fn lemma_window_holds_newest_samples<A>(xs: Seq<A>, max_size: nat)
    ensures
        window_after_pushes(Seq::<A>::empty(), xs, max_size) == newest(xs, max_size),
    decreases xs.len(),
{
    if xs.len() > 0 {
        let init = xs.drop_last();
        lemma_window_holds_newest_samples(init, max_size);
        let prev = newest(init, max_size);
        let pushed = prev.push(xs.last());
        let k = evicted_count(prev.len(), max_size);
        if k == 0 {
            assert(drop_front(pushed, k) =~= pushed.skip(0));
            assert(pushed.skip(0) =~= pushed);
            assert(newest(xs, max_size) =~= pushed);
        } else if k >= pushed.len() {
            assert(newest(xs, max_size) =~= Seq::<A>::empty());
        } else {
            assert(newest(xs, max_size) =~= pushed.skip(k as int));
        }
    }
}

/// Two to the 53rd itself is an exact `f64` value.
proof fn lemma_exact_bound_is_exact()
    ensures
        as_f64_value(F64_EXACT_BOUND as nat) == F64_EXACT_BOUND,
{
    let b = F64_EXACT_BOUND as nat;
    assert(b / 2 < F64_EXACT_BOUND);
    assert(crate::utils::format::f64_spacing(b / 2) == 1);
    assert(crate::utils::format::f64_spacing(b) == 2);
}

/// Pushing onto a history whose timestamps are consecutive (and still below
/// the point where an `f64` counter stops growing) keeps them consecutive,
/// whatever was evicted.
pub proof fn lemma_push_keeps_timestamps_consecutive(timestamps: Seq<u64>, k: nat)
    requires
        is_consecutive(timestamps),
        timestamps.len() > 0 ==> timestamps.last() < F64_EXACT_BOUND,
    ensures
        is_consecutive(drop_front(timestamps.push(next_timestamp(timestamps) as u64), k)),
{
    if timestamps.len() > 0 {
        let next = timestamps.last() + 1;
        if next < F64_EXACT_BOUND {
            lemma_small_counts_are_exact(next as nat);
        } else {
            lemma_exact_bound_is_exact();
        }
    }
    let pushed = timestamps.push(next_timestamp(timestamps) as u64);
    assert(is_consecutive(pushed)) by {
        assert forall|i: int| 0 <= i < pushed.len() - 1 implies #[trigger] pushed[i + 1] == pushed[i]
            + 1 by {
            if i < timestamps.len() - 1 {
                assert(pushed[i + 1] == timestamps[i + 1]);
            }
        }
    }
    if k < pushed.len() {
        let r = pushed.skip(k as int);
        assert forall|i: int| 0 <= i < r.len() - 1 implies #[trigger] r[i + 1] == r[i] + 1 by {
            assert(r[i + 1] == pushed[i + k + 1]);
            assert(r[i] == pushed[i + k]);
        }
    }
}

} // verus!
