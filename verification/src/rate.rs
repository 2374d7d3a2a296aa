use vstd::prelude::*;

use std::collections::VecDeque;

verus! {

/// How many arrival times the rate estimate is averaged over.
pub const TIME_AVG_SAMPLES: usize = 10000;

/// The window after recording arrival time `t`: the time is appended, and
/// once more than `TIME_AVG_SAMPLES` times are held the oldest
/// `TIME_AVG_SAMPLES` of them are dropped.
pub open spec fn window_after(times: Seq<u64>, t: u64) -> Seq<u64> {
    let s = times.push(t);
    if s.len() > TIME_AVG_SAMPLES {
        s.subrange(TIME_AVG_SAMPLES as int, s.len() as int)
    } else {
        s
    }
}

/// With at least two times: the number of intervals between them and the
/// time from the oldest to the newest (zero if the newest is not later).
/// The message rate is the first divided by the second.
pub open spec fn span_of(times: Seq<u64>) -> Option<(usize, u64)> {
    if times.len() < 2 {
        None
    } else {
        Some(
            (
                (times.len() - 1) as usize,
                if times.last() >= times[0] {
                    (times.last() - times[0]) as u64
                } else {
                    0u64
                },
            ),
        )
    }
}

/// The arrival times of recent messages, oldest first, from which the
/// message rate is estimated.
pub struct MsgTimes {
    times: VecDeque<u64>,
}

impl View for MsgTimes {
    type V = Seq<u64>;

    closed spec fn view(&self) -> Seq<u64> {
        self.times@
    }
}

impl MsgTimes {
    #[verifier::type_invariant]
    spec fn inv(self) -> bool {
        self.times@.len() <= TIME_AVG_SAMPLES
    }

    /// An empty window.
    pub fn new() -> (w: MsgTimes)
        ensures
            w@ == Seq::<u64>::empty(),
    {
        MsgTimes { times: VecDeque::new() }
    }

    /// Number of arrival times held.
    pub fn len(&self) -> (n: usize)
        ensures
            n == self@.len(),
            n <= TIME_AVG_SAMPLES,
    {
        proof {
            use_type_invariant(self);
        }
        self.times.len()
    }

    /// Records the arrival time `t` (in any unit that does not go
    /// backwards). Returns the span of the window with `t` appended, taken
    /// before the oldest times are dropped.
    pub fn record(&mut self, t: u64) -> (r: Option<(usize, u64)>)
        ensures
            r == span_of(old(self)@.push(t)),
            final(self)@ == window_after(old(self)@, t),
            old(self)@.len() == 0 ==> r is None,
            old(self)@.len() >= 1 && t >= old(self)@[0] ==> r == Some(
                (old(self)@.len() as usize, (t - old(self)@[0]) as u64),
            ),
            old(self)@.len() >= 1 && t < old(self)@[0] ==> r == Some(
                (old(self)@.len() as usize, 0u64),
            ),
            old(self)@.len() < 10000 ==> final(self)@ == old(self)@.push(t),
            old(self)@.len() >= 10000 ==> final(self)@ == old(self)@.push(t).subrange(
                10000,
                old(self)@.len() + 1int,
            ),
            final(self)@.len() <= TIME_AVG_SAMPLES,
    {
        proof {
            use_type_invariant(&*self);
        }
        let mut times: VecDeque<u64> = VecDeque::new();
        std::mem::swap(&mut times, &mut self.times);
        times.push_back(t);
        let n = times.len();
        let r = if n < 2 {
            None
        } else {
            Some((n - 1, times[n - 1].saturating_sub(times[0])))
        };
        if times.len() > TIME_AVG_SAMPLES {
            let tail = times.split_off(TIME_AVG_SAMPLES);
            times = tail;
        }
        self.times = times;
        r
    }

    /// The span of the window (see `span_of`).
    pub fn span(&self) -> (r: Option<(usize, u64)>)
        ensures
            r == span_of(self@),
            self@.len() < 2 ==> r is None,
            self@.len() >= 2 && self@.last() >= self@[0] ==> r == Some(
                ((self@.len() - 1) as usize, (self@.last() - self@[0]) as u64),
            ),
            self@.len() >= 2 && self@.last() < self@[0] ==> r == Some(
                ((self@.len() - 1) as usize, 0u64),
            ),
    {
        let n = self.times.len();
        if n < 2 {
            return None;
        }
        let oldest = self.times[0];
        let newest = self.times[n - 1];
        Some((n - 1, newest.saturating_sub(oldest)))
    }
}

/// The span of a window: none below two times; otherwise the number of
/// intervals and exactly the time from the oldest to the newest (zero when
/// the newest is earlier).
pub proof fn lemma_span_of(times: Seq<u64>)
    ensures
        times.len() < 2 ==> span_of(times) is None,
        times.len() >= 2 && times.last() >= times[0] ==> span_of(times) == Some(
            ((times.len() - 1) as usize, (times.last() - times[0]) as u64),
        ),
        times.len() >= 2 && times.last() < times[0] ==> span_of(times) == Some(
            ((times.len() - 1) as usize, 0u64),
        ),
{
}

/// Recording keeps every time while fewer than 10000 are held; beyond
/// that the oldest 10000 are dropped; the newest time is always kept last.
pub proof fn lemma_window_after(times: Seq<u64>, t: u64)
    ensures
        times.len() < 10000 ==> window_after(times, t) == times.push(t),
        times.len() >= 10000 ==> window_after(times, t) == times.push(t).subrange(
            10000,
            times.len() + 1int,
        ),
{
}

/// The window never holds more than `TIME_AVG_SAMPLES` times once it holds
/// no more than that.
pub proof fn lemma_window_bounded(times: Seq<u64>, t: u64)
    requires
        times.len() <= TIME_AVG_SAMPLES,
    ensures
        window_after(times, t).len() <= TIME_AVG_SAMPLES,
        window_after(times, t).len() >= 1,
        window_after(times, t).last() == t,
{
}

} // verus!
