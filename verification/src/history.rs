use vstd::prelude::*;

use std::collections::VecDeque;

use crate::acc_msg::AccMsg;

verus! {

/// The messages to plot, newest first.
pub struct History {
    msgs: VecDeque<AccMsg>,
}

impl View for History {
    type V = Seq<AccMsg>;

    closed spec fn view(&self) -> Seq<AccMsg> {
        self.msgs@
    }
}

/// The history after keeping at most `n` of its newest messages.
pub open spec fn limited(h: Seq<AccMsg>, n: nat) -> Seq<AccMsg> {
    if h.len() > n {
        h.subrange(0, n as int)
    } else {
        h
    }
}

impl History {
    /// An empty history.
    pub fn new() -> (h: History)
        ensures
            h@ == Seq::<AccMsg>::empty(),
    {
        History { msgs: VecDeque::new() }
    }

    /// Number of messages held.
    pub fn len(&self) -> (n: usize)
        ensures
            n == self@.len(),
    {
        self.msgs.len()
    }

    /// The `i`-th newest message.
    pub fn get(&self, i: usize) -> (m: AccMsg)
        requires
            i < self@.len(),
        ensures
            m == self@[i as int],
    {
        self.msgs[i]
    }

    /// Adds a message as the newest.
    pub fn push_newest(&mut self, m: AccMsg)
        ensures
            final(self)@ == seq![m] + old(self)@,
    {
        self.msgs.push_front(m);
    }

    /// Keeps at most the `n` newest messages.
    pub fn limit(&mut self, n: usize)
        ensures
            final(self)@ == limited(old(self)@, n as nat),
            final(self)@.len() == (if n < old(self)@.len() {
                n as nat
            } else {
                old(self)@.len()
            }),
            final(self)@ == old(self)@.subrange(0, final(self)@.len() as int),
    {
        if self.msgs.len() > n {
            self.msgs.truncate(n);
        }
    }
}

/// Limiting to `n` keeps exactly the `min(n, length)` newest messages.
pub proof fn lemma_limited(h: Seq<AccMsg>, n: nat)
    ensures
        limited(h, n).len() == (if n < h.len() {
            n
        } else {
            h.len()
        }),
        limited(h, n) == h.subrange(0, limited(h, n).len() as int),
{
    assert(h.subrange(0, h.len() as int) =~= h);
}

/// Limiting twice is limiting once to the smaller bound.
pub proof fn lemma_limit_twice(h: Seq<AccMsg>, a: nat, b: nat)
    ensures
        limited(limited(h, a), b) == limited(h, if a <= b { a } else { b }),
{
    assert(limited(limited(h, a), b) =~= limited(h, if a <= b { a } else { b }));
}

} // verus!
