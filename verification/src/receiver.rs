use vstd::prelude::*;

use crate::acc_msg::AccMsg;
use crate::wire::{
    agrees, decode_frame, decoded_frame, msg_frame, starts_with, FrameError, FrameRead, CRC_LEN,
};

verus! {

/// The fewest bytes a frame can take: five one-byte varints and the
/// checksum. The receiver gives up on the bytes at the front only when it
/// holds at least this many, since fewer may still grow into a frame.
pub const MIN_FRAME_LEN: usize = 5 + CRC_LEN;

/// The abstract state of a receiver: the bytes received and not yet
/// consumed, the counter of the last message read, and how many messages
/// were read (modulo 2^16).
pub struct RxState {
    pub fifo: Seq<u8>,
    pub msg_counter: u16,
    pub num_rx_msgs: u16,
}

/// What one step of the receiver produced.
#[derive(Debug)]
pub enum RxEvent {
    /// A message was read from the front of the bytes.
    Received(AccMsg),
    /// No frame begins at the front; its first byte was dropped.
    Rejected(FrameError),
}

/// Reassembles messages from a byte stream that may hold garbage, lost or
/// corrupted bytes. A frame at the front is read as soon as it is complete;
/// the beginning of a frame is kept until the rest arrives; when no frame
/// can begin at the front, its first byte is dropped so that the stream can
/// fall back into step.
pub struct Receiver {
    fifo: Vec<u8>,
    msg_counter: u16,
    num_rx_msgs: u16,
    /// Every byte ever received, in order.
    received: Ghost<Seq<u8>>,
    /// Every message ever read, in order.
    delivered: Ghost<Seq<AccMsg>>,
    /// Where in `received` each delivered message's frame began.
    starts: Ghost<Seq<int>>,
    /// Where in `received` each delivered message's frame ended.
    ends: Ghost<Seq<int>>,
}

impl View for Receiver {
    type V = RxState;

    closed spec fn view(&self) -> RxState {
        RxState { fifo: self.fifo@, msg_counter: self.msg_counter, num_rx_msgs: self.num_rx_msgs }
    }
}

/// Wrapping increment is adding one modulo 2^16.
pub proof fn lemma_wrapping_inc(n: u16)
    ensures
        wrapping_inc(n) == (n + 1) % 0x10000,
{
}

/// `n + 1`, wrapping at 2^16.
pub open spec fn wrapping_inc(n: u16) -> u16 {
    if n == u16::MAX {
        0
    } else {
        (n + 1) as u16
    }
}

/// The state after reading message `m` whose frame took `used` bytes.
pub open spec fn after_message(s: RxState, m: AccMsg, used: nat) -> RxState {
    RxState {
        fifo: s.fifo.subrange(used as int, s.fifo.len() as int),
        msg_counter: m.counter,
        num_rx_msgs: wrapping_inc(s.num_rx_msgs),
    }
}

/// The state after dropping the first byte.
pub open spec fn after_reject(s: RxState) -> RxState {
    RxState { fifo: s.fifo.drop_first(), msg_counter: s.msg_counter, num_rx_msgs: s.num_rx_msgs }
}

/// Whether the receiver waits for more bytes in state `s`: what is held may
/// still become a frame.
pub open spec fn waits(s: RxState) -> bool {
    match decoded_frame(s.fifo) {
        FrameRead::Message(_, _) => false,
        FrameRead::Incomplete => true,
        FrameRead::Unreadable => s.fifo.len() < MIN_FRAME_LEN,
    }
}

/// Reading messages from the front until the receiver waits for more bytes
/// or gives up on the first byte: the final state, the messages read in
/// order, and whether the run ended by dropping a byte.
pub open spec fn rx_run(s: RxState) -> (RxState, Seq<AccMsg>, bool)
    decreases s.fifo.len(),
{
    match decoded_frame(s.fifo) {
        FrameRead::Message(m, used) => if 0 < used <= s.fifo.len() {
            let (t, ms, rejected) = rx_run(after_message(s, m, used));
            (t, seq![m] + ms, rejected)
        } else {
            (s, Seq::empty(), false)
        },
        FrameRead::Incomplete => (s, Seq::empty(), false),
        FrameRead::Unreadable => if s.fifo.len() >= MIN_FRAME_LEN {
            (after_reject(s), Seq::empty(), true)
        } else {
            (s, Seq::empty(), false)
        },
    }
}

/// The frames of `ms`, one after another.
pub open spec fn frames_of(ms: Seq<AccMsg>) -> Seq<u8>
    decreases ms.len(),
{
    if ms.len() == 0 {
        Seq::empty()
    } else {
        msg_frame(ms[0]) + frames_of(ms.subrange(1, ms.len() as int))
    }
}

/// `ms` were read one after another from the front of `bytes`: message `i`
/// is what the bytes from `cuts[i]` to `cuts[i + 1]` read as on their own,
/// a whole frame with nothing left over.
pub open spec fn read_in_order(bytes: Seq<u8>, ms: Seq<AccMsg>, cuts: Seq<int>) -> bool {
    &&& cuts.len() == ms.len() + 1
    &&& cuts[0] == 0
    &&& forall|i: int|
        #![trigger ms[i]]
        0 <= i < ms.len() ==> cuts[i] < cuts[i + 1] <= bytes.len() && decoded_frame(
            bytes.subrange(cuts[i], cuts[i + 1]),
        ) == FrameRead::Message(ms[i], (cuts[i + 1] - cuts[i]) as nat)
}

/// `ms` were read, in order, from separate stretches of `bytes`: message
/// `i` is what the bytes from `starts[i]` to `ends[i]` read as on their own,
/// a whole frame with nothing left over, and each stretch ends no later than
/// the next begins. Bytes between stretches were dropped.
pub open spec fn read_from_stream(
    bytes: Seq<u8>,
    ms: Seq<AccMsg>,
    starts: Seq<int>,
    ends: Seq<int>,
) -> bool {
    &&& starts.len() == ms.len()
    &&& ends.len() == ms.len()
    &&& forall|i: int|
        #![trigger ms[i]]
        0 <= i < ms.len() ==> 0 <= starts[i] < ends[i] <= bytes.len() && decoded_frame(
            bytes.subrange(starts[i], ends[i]),
        ) == FrameRead::Message(ms[i], (ends[i] - starts[i]) as nat)
    &&& forall|i: int| #![trigger starts[i]] 0 < i < ms.len() ==> ends[i - 1] <= starts[i]
}

/// A message read from the front takes at least `MIN_FRAME_LEN` bytes and
/// no more than are held.
pub proof fn lemma_decoded_len(bytes: Seq<u8>)
    ensures
        decoded_frame(bytes) matches FrameRead::Message(_, used) ==> MIN_FRAME_LEN <= used
            <= bytes.len(),
{
}

/// The frames of the messages from position `j` on are the frame of
/// message `j` followed by the frames of the rest.
pub proof fn lemma_frames_of_step(ms: Seq<AccMsg>, j: int)
    requires
        0 <= j < ms.len(),
    ensures
        frames_of(ms.subrange(j, ms.len() as int)) == msg_frame(ms[j]) + frames_of(
            ms.subrange(j + 1, ms.len() as int),
        ),
{
    let s = ms.subrange(j, ms.len() as int);
    assert(s.subrange(1, s.len() as int) =~= ms.subrange(j + 1, ms.len() as int));
}

impl Receiver {
    /// An empty receiver: no bytes, counters zero.
    pub fn new() -> (r: Receiver)
        ensures
            r@.fifo == Seq::<u8>::empty(),
            r@.msg_counter == 0,
            r@.num_rx_msgs == 0,
            r.wf(),
            r.received() == Seq::<u8>::empty(),
            r.delivered() == Seq::<AccMsg>::empty(),
    {
        let r = Receiver {
            fifo: Vec::new(),
            msg_counter: 0,
            num_rx_msgs: 0,
            received: Ghost(Seq::empty()),
            delivered: Ghost(Seq::empty()),
            starts: Ghost(Seq::empty()),
            ends: Ghost(Seq::empty()),
        };
        proof {
            assert(r.fifo@ =~= r.received@.subrange(0, 0));
        }
        r
    }

    /// Every byte this receiver was ever given, in order.
    pub closed spec fn received(&self) -> Seq<u8> {
        self.received@
    }

    /// Every message this receiver ever read, in order.
    pub closed spec fn delivered(&self) -> Seq<AccMsg> {
        self.delivered@
    }

    /// The receiver's bookkeeping is consistent: the bytes held are the end
    /// of those received, and the messages delivered were read in order
    /// from separate stretches before them.
    pub closed spec fn wf(&self) -> bool {
        let consumed = self.received@.len() - self.fifo@.len();
        &&& self.fifo@.len() <= self.received@.len()
        &&& self.fifo@ == self.received@.subrange(consumed, self.received@.len() as int)
        &&& read_from_stream(self.received@, self.delivered@, self.starts@, self.ends@)
        &&& self.delivered@.len() > 0 ==> self.ends@.last() <= consumed
    }

    /// Over the receiver's whole life, the messages it delivered were read,
    /// in order, from separate stretches of the bytes it received, each
    /// stretch a whole frame that reads alone as that message; no byte is
    /// used twice, and the bytes still held come after all those stretches.
    pub proof fn lemma_stream_order(&self)
        requires
            self.wf(),
        ensures
            self@.fifo.len() <= self.received().len(),
            self@.fifo == self.received().subrange(
                self.received().len() - self@.fifo.len(),
                self.received().len() as int,
            ),
            exists|starts: Seq<int>, ends: Seq<int>|
                read_from_stream(self.received(), self.delivered(), starts, ends) && (
                self.delivered().len() > 0 ==> ends.last() <= self.received().len()
                    - self@.fifo.len()),
    {
        assert(read_from_stream(self.received(), self.delivered(), self.starts@, self.ends@));
    }

    /// The bytes held and not yet consumed.
    pub fn pending(&self) -> (b: &[u8])
        ensures
            b@ == self@.fifo,
    {
        self.fifo.as_slice()
    }

    /// The counter of the last message read (zero before the first).
    pub fn msg_counter(&self) -> (c: u16)
        ensures
            c == self@.msg_counter,
    {
        self.msg_counter
    }

    /// How many messages were read, modulo 2^16.
    pub fn num_rx_msgs(&self) -> (n: u16)
        ensures
            n == self@.num_rx_msgs,
    {
        self.num_rx_msgs
    }

    /// Appends received bytes after those held.
    pub fn extend(&mut self, data: &[u8])
        requires
            old(self).wf(),
        ensures
            final(self).wf(),
            final(self).received() == old(self).received() + data@,
            final(self).delivered() == old(self).delivered(),
            final(self)@.fifo == old(self)@.fifo + data@,
            final(self)@.msg_counter == old(self)@.msg_counter,
            final(self)@.num_rx_msgs == old(self)@.num_rx_msgs,
    {
        let mut i: usize = 0;
        while i < data.len()
            invariant
                i <= data@.len(),
                old(self).wf(),
                self.received@ == old(self).received@,
                self.delivered@ == old(self).delivered@,
                self.starts@ == old(self).starts@,
                self.ends@ == old(self).ends@,
                self@.fifo == old(self)@.fifo + data@.subrange(0, i as int),
                self@.msg_counter == old(self)@.msg_counter,
                self@.num_rx_msgs == old(self)@.num_rx_msgs,
            decreases data@.len() - i,
        {
            self.fifo.push(data[i]);
            i = i + 1;
            assert(self@.fifo =~= old(self)@.fifo + data@.subrange(0, i as int));
        }
        assert(data@.subrange(0, i as int) =~= data@);
        let ghost before = self.received@;
        self.received = Ghost(self.received@ + data@);
        proof {
            let r = self.received@;
            let consumed = before.len() - old(self).fifo@.len();
            assert(self.fifo@ =~= r.subrange(consumed, r.len() as int));
            assert forall|i: int|
                #![trigger self.delivered@[i]]
                0 <= i < self.delivered@.len() implies r.subrange(self.starts@[i], self.ends@[i])
                == before.subrange(self.starts@[i], self.ends@[i]) by {
                let _ = old(self).delivered@[i];
                assert(0 <= self.starts@[i] < self.ends@[i] <= before.len());
                assert(r.subrange(self.starts@[i], self.ends@[i]) =~= before.subrange(
                    self.starts@[i],
                    self.ends@[i],
                ));
            }
        }
    }

    /// One step. A whole frame at the front is read: its bytes are
    /// consumed, its counter is recorded and the message count goes up by
    /// one. The beginning of a frame is kept as it is until more bytes come.
    /// When no frame can begin at the front and at least `MIN_FRAME_LEN`
    /// bytes are held, the first byte is dropped.
    pub fn poll(&mut self) -> (ev: Option<RxEvent>)
        requires
            old(self).wf(),
        ensures
            final(self).wf(),
            final(self).received() == old(self).received(),
            final(self).delivered() == (match ev {
                Some(RxEvent::Received(m)) => old(self).delivered().push(m),
                _ => old(self).delivered(),
            }),
            match decoded_frame(old(self)@.fifo) {
                FrameRead::Message(m, used) => {
                    &&& MIN_FRAME_LEN <= used <= old(self)@.fifo.len()
                    &&& ev == Some(RxEvent::Received(m))
                    &&& final(self)@ == after_message(old(self)@, m, used)
                    &&& final(self)@.fifo == old(self)@.fifo.subrange(
                        used as int,
                        old(self)@.fifo.len() as int,
                    )
                    &&& final(self)@.msg_counter == m.counter
                    &&& final(self)@.num_rx_msgs == (old(self)@.num_rx_msgs + 1) % 0x10000
                    &&& decoded_frame(old(self)@.fifo.subrange(0, used as int))
                        == FrameRead::Message(m, used)
                },
                FrameRead::Incomplete => ev is None && final(self)@ == old(self)@,
                FrameRead::Unreadable => if old(self)@.fifo.len() >= MIN_FRAME_LEN {
                    final(self)@ == after_reject(old(self)@) && final(self)@.fifo == old(
                        self,
                    )@.fifo.subrange(1, old(self)@.fifo.len() as int) && final(self)@.msg_counter
                        == old(self)@.msg_counter && final(self)@.num_rx_msgs == old(
                        self,
                    )@.num_rx_msgs && (ev matches Some(
                        RxEvent::Rejected(e),
                    ) && !(e is Incomplete))
                } else {
                    ev is None && final(self)@ == old(self)@
                },
            },
            forall|m: AccMsg|
                #[trigger] starts_with(old(self)@.fifo, msg_frame(m)) ==> ev == Some(
                    RxEvent::Received(m),
                ) && final(self)@.fifo == old(self)@.fifo.subrange(
                    msg_frame(m).len() as int,
                    old(self)@.fifo.len() as int,
                ),
            forall|m: AccMsg|
                #[trigger] agrees(old(self)@.fifo, msg_frame(m)) && old(self)@.fifo.len() < msg_frame(
                    m,
                ).len() ==> ev is None && final(self)@ == old(self)@,
            old(self)@.fifo.len() == 0 ==> ev is None && final(self)@ == old(self)@,
    {
        match decode_frame(self.fifo.as_slice()) {
            Ok((m, used)) => {
                proof {
                    assert(self@.fifo.subrange(0, used as int) + Seq::<u8>::empty()
                        =~= self@.fifo.subrange(0, used as int));
                }
                let ghost r = self.received@;
                let ghost c = r.len() - self.fifo@.len();
                let rest = self.fifo.split_off(used);
                self.fifo = rest;
                self.msg_counter = m.counter;
                self.num_rx_msgs = self.num_rx_msgs.wrapping_add(1);
                let ghost prev = self.delivered@;
                let ghost prev_ends = self.ends@;
                self.delivered = Ghost(self.delivered@.push(m));
                self.starts = Ghost(self.starts@.push(c));
                self.ends = Ghost(self.ends@.push(c + used));
                proof {
                    assert(old(self)@.fifo.subrange(0, used as int) =~= r.subrange(c, c + used));
                    assert(self.fifo@ =~= r.subrange(c + used, r.len() as int));
                    assert forall|i: int|
                        #![trigger self.delivered@[i]]
                        0 <= i < self.delivered@.len() implies 0 <= self.starts@[i] < self.ends@[i]
                            <= r.len() && decoded_frame(r.subrange(self.starts@[i], self.ends@[i]))
                            == FrameRead::Message(
                            self.delivered@[i],
                            (self.ends@[i] - self.starts@[i]) as nat,
                        ) by {
                        if i < prev.len() {
                            let _ = prev[i];
                        }
                    }
                    assert forall|i: int|
                        #![trigger self.starts@[i]]
                        0 < i < self.delivered@.len() implies self.ends@[i - 1] <= self.starts@[i] by {
                        if i < prev.len() {
                            let _ = old(self).starts@[i];
                        }
                    }
                }
                Some(RxEvent::Received(m))
            },
            Err(FrameError::Incomplete) => None,
            Err(e) => {
                if self.fifo.len() >= MIN_FRAME_LEN {
                    self.fifo.remove(0);
                    assert(self@.fifo =~= old(self)@.fifo.drop_first());
                    proof {
                        let r = self.received@;
                        let c = r.len() - old(self).fifo@.len();
                        assert(self.fifo@ =~= r.subrange(c + 1, r.len() as int));
                    }
                    Some(RxEvent::Rejected(e))
                } else {
                    None
                }
            },
        }
    }
}

impl Receiver {
    /// Reads messages from the front until the receiver waits for more
    /// bytes or gives up on the first byte; returns the messages read, in
    /// order, and the failure, if the run ended by dropping a byte.
    /// Bytes that begin with whole frames give back their messages, in
    /// order; each message is read from its own stretch of the bytes, the
    /// stretches following one another from the front.
    pub fn process(&mut self) -> (out: (Vec<AccMsg>, Option<FrameError>))
        requires
            old(self).wf(),
        ensures
            final(self).wf(),
            final(self).received() == old(self).received(),
            final(self).delivered() == old(self).delivered() + out.0@,
            ({
                let (t, ms, rejected) = rx_run(old(self)@);
                &&& final(self)@ == t
                &&& out.0@ == ms
                &&& out.1 is Some <==> rejected
            }),
            out.1 matches Some(e) ==> !(e is Incomplete),
            exists|cuts: Seq<int>|
                read_in_order(old(self)@.fifo, out.0@, cuts) && final(self)@.fifo == old(
                    self,
                )@.fifo.subrange(
                    cuts.last() + (if out.1 is Some {
                        1int
                    } else {
                        0int
                    }),
                    old(self)@.fifo.len() as int,
                ),
            forall|ms: Seq<AccMsg>, tail: Seq<u8>|
                #[trigger] (frames_of(ms) + tail) == old(self)@.fifo ==> ms.len() <= out.0@.len()
                    && out.0@.subrange(0, ms.len() as int) == ms,
            forall|ms: Seq<AccMsg>|
                #[trigger] frames_of(ms) == old(self)@.fifo ==> out.0@ == ms
                    && final(self)@.fifo.len() == 0 && out.1 is None,
            forall|m: AccMsg|
                #[trigger] agrees(old(self)@.fifo, msg_frame(m)) && old(self)@.fifo.len() < msg_frame(
                    m,
                ).len() ==> out.0@.len() == 0 && out.1 is None && final(self)@ == old(self)@,
    {
        let ghost start = self@.fifo;
        let ghost mut cuts: Seq<int> = seq![0int];
        let mut msgs: Vec<AccMsg> = Vec::new();
        proof {
            assert(old(self).delivered() + msgs@ =~= old(self).delivered());
            assert(start.subrange(0, start.len() as int) =~= start);
            assert forall|ms: Seq<AccMsg>, tail: Seq<u8>|
                #[trigger] (frames_of(ms) + tail) == start implies {
                    &&& msgs@.len() <= ms.len() ==> msgs@ == ms.subrange(0, msgs@.len() as int)
                        && self@.fifo == frames_of(ms.subrange(msgs@.len() as int, ms.len() as int))
                        + tail
                    &&& msgs@.len() > ms.len() ==> msgs@.subrange(0, ms.len() as int) == ms
                        && tail.len() > 0
                } by {
                assert(ms.subrange(0, ms.len() as int) =~= ms);
                assert(msgs@ =~= ms.subrange(0, 0));
            }
        }
        loop
            invariant
                start == old(self)@.fifo,
                self.wf(),
                self.received() == old(self).received(),
                self.delivered() == old(self).delivered() + msgs@,
                forall|m: AccMsg|
                    #[trigger] agrees(start, msg_frame(m)) && start.len() < msg_frame(m).len()
                        ==> msgs@.len() == 0 && self@ == old(self)@,
                ({
                    let (t, ms, rejected) = rx_run(self@);
                    let (t0, ms0, rejected0) = rx_run(old(self)@);
                    t == t0 && msgs@ + ms == ms0 && rejected == rejected0
                }),
                read_in_order(start, msgs@, cuts),
                0 <= cuts.last() <= start.len(),
                self@.fifo == start.subrange(cuts.last(), start.len() as int),
                forall|ms: Seq<AccMsg>, tail: Seq<u8>|
                    #[trigger] (frames_of(ms) + tail) == start ==> {
                        &&& msgs@.len() <= ms.len() ==> msgs@ == ms.subrange(0, msgs@.len() as int)
                            && self@.fifo == frames_of(ms.subrange(msgs@.len() as int, ms.len() as int))
                            + tail
                        &&& msgs@.len() > ms.len() ==> msgs@.subrange(0, ms.len() as int) == ms
                            && tail.len() > 0
                    },
            decreases self@.fifo.len(),
        {
            let ghost before = self@;
            let ghost c = cuts.last();
            match self.poll() {
                None => {
                    proof {
                        assert(msgs@ + Seq::<AccMsg>::empty() =~= msgs@);
                        assert forall|ms: Seq<AccMsg>, tail: Seq<u8>|
                            #[trigger] (frames_of(ms) + tail) == start implies ms.len() <= msgs@.len()
                                && msgs@.subrange(0, ms.len() as int) == ms by {
                            if msgs@.len() < ms.len() {
                                let j = msgs@.len() as int;
                                lemma_frames_of_step(ms, j);
                                let fr = msg_frame(ms[j]);
                                assert(before.fifo.subrange(0, fr.len() as int) =~= fr);
                                assert(starts_with(before.fifo, msg_frame(ms[j])));
                            }
                            if msgs@.len() == ms.len() {
                                assert(ms.subrange(0, ms.len() as int) =~= ms);
                            }
                        }
                        assert forall|ms: Seq<AccMsg>| #[trigger] frames_of(ms) == start implies msgs@
                            == ms && self@.fifo.len() == 0 by {
                            let tail = Seq::<u8>::empty();
                            assert(frames_of(ms) + tail =~= frames_of(ms));
                            if msgs@.len() < ms.len() {
                                let j = msgs@.len() as int;
                                lemma_frames_of_step(ms, j);
                                let fr = msg_frame(ms[j]);
                                assert(before.fifo.subrange(0, fr.len() as int) =~= fr);
                                assert(starts_with(before.fifo, msg_frame(ms[j])));
                            }
                            assert(ms.subrange(0, ms.len() as int) =~= ms);
                            assert(ms.subrange(ms.len() as int, ms.len() as int) =~= Seq::<AccMsg>::empty());
                            assert(frames_of(Seq::<AccMsg>::empty()) + tail =~= Seq::<u8>::empty());
                        }
                    }
                    let out = (msgs, None);
                    assert(read_in_order(old(self)@.fifo, out.0@, cuts) && self@.fifo == old(
                        self,
                    )@.fifo.subrange(
                        cuts.last() + (if out.1 is Some {
                            1int
                        } else {
                            0int
                        }),
                        old(self)@.fifo.len() as int,
                    ));
                    return out;
                },
                Some(RxEvent::Received(m)) => {
                    let ghost used = (before.fifo.len() - self@.fifo.len()) as int;
                    let ghost ms_rest = rx_run(self@).1;
                    let ghost prev = msgs@;
                    proof {
                        lemma_decoded_len(before.fifo);
                        assert(before.fifo.subrange(0, used) =~= start.subrange(c, c + used));
                        assert(self@.fifo =~= start.subrange(c + used, start.len() as int));
                    }
                    msgs.push(m);
                    proof {
                        assert(self.delivered() =~= old(self).delivered() + msgs@);
                        assert(msgs@ + ms_rest =~= prev + (seq![m] + ms_rest));
                        let new_cuts = cuts.push(c + used);
                        assert forall|i: int|
                            #![trigger msgs@[i]]
                            0 <= i < msgs@.len() implies new_cuts[i] < new_cuts[i + 1] <= start.len()
                                && decoded_frame(start.subrange(new_cuts[i], new_cuts[i + 1]))
                                == FrameRead::Message(msgs@[i], (new_cuts[i + 1] - new_cuts[i]) as nat) by {
                            if i < prev.len() {
                                assert(msgs@[i] == prev[i]);
                            }
                        }
                        cuts = new_cuts;
                        assert forall|ms: Seq<AccMsg>, tail: Seq<u8>|
                            #[trigger] (frames_of(ms) + tail) == start implies {
                                &&& msgs@.len() <= ms.len() ==> msgs@ == ms.subrange(0, msgs@.len() as int)
                                    && self@.fifo == frames_of(ms.subrange(msgs@.len() as int, ms.len() as int))
                                    + tail
                                &&& msgs@.len() > ms.len() ==> msgs@.subrange(0, ms.len() as int) == ms
                                    && tail.len() > 0
                            } by {
                            if prev.len() < ms.len() {
                                let j = prev.len() as int;
                                lemma_frames_of_step(ms, j);
                                let fr = msg_frame(ms[j]);
                                assert(before.fifo == fr + (frames_of(ms.subrange(j + 1, ms.len() as int)) + tail));
                                assert(before.fifo.subrange(0, fr.len() as int) =~= fr);
                                assert(starts_with(before.fifo, msg_frame(ms[j])));
                                assert(m == ms[j]);
                                assert(self@.fifo =~= frames_of(ms.subrange(j + 1, ms.len() as int)) + tail);
                                assert(msgs@ =~= ms.subrange(0, j + 1));
                            } else if prev.len() == ms.len() {
                                assert(ms.subrange(ms.len() as int, ms.len() as int) =~= Seq::<AccMsg>::empty());
                                assert(frames_of(Seq::<AccMsg>::empty()) + tail =~= tail);
                                assert(msgs@.subrange(0, ms.len() as int) =~= prev);
                                assert(ms.subrange(0, ms.len() as int) =~= ms);
                            } else {
                                assert(msgs@.subrange(0, ms.len() as int) =~= prev.subrange(0, ms.len() as int));
                            }
                        }
                    }
                },
                Some(RxEvent::Rejected(e)) => {
                    proof {
                        assert(msgs@ + Seq::<AccMsg>::empty() =~= msgs@);
                        assert(self@.fifo =~= start.subrange(c + 1, start.len() as int));
                        assert forall|ms: Seq<AccMsg>, tail: Seq<u8>|
                            #[trigger] (frames_of(ms) + tail) == start implies ms.len() <= msgs@.len()
                                && msgs@.subrange(0, ms.len() as int) == ms by {
                            if msgs@.len() < ms.len() {
                                let j = msgs@.len() as int;
                                lemma_frames_of_step(ms, j);
                                let fr = msg_frame(ms[j]);
                                assert(before.fifo.subrange(0, fr.len() as int) =~= fr);
                                assert(starts_with(before.fifo, msg_frame(ms[j])));
                            }
                            if msgs@.len() == ms.len() {
                                assert(ms.subrange(0, ms.len() as int) =~= ms);
                            }
                        }
                        assert forall|ms: Seq<AccMsg>| #[trigger] frames_of(ms) == start implies false by {
                            let tail = Seq::<u8>::empty();
                            assert(frames_of(ms) + tail =~= frames_of(ms));
                            if msgs@.len() < ms.len() {
                                let j = msgs@.len() as int;
                                lemma_frames_of_step(ms, j);
                                let fr = msg_frame(ms[j]);
                                assert(before.fifo.subrange(0, fr.len() as int) =~= fr);
                                assert(starts_with(before.fifo, msg_frame(ms[j])));
                            }
                            assert(ms.subrange(ms.len() as int, ms.len() as int) =~= Seq::<AccMsg>::empty());
                            assert(frames_of(Seq::<AccMsg>::empty()) + tail =~= Seq::<u8>::empty());
                        }
                    }
                    let out = (msgs, Some(e));
                    assert(read_in_order(old(self)@.fifo, out.0@, cuts) && self@.fifo == old(
                        self,
                    )@.fifo.subrange(
                        cuts.last() + (if out.1 is Some {
                            1int
                        } else {
                            0int
                        }),
                        old(self)@.fifo.len() as int,
                    ));
                    return out;
                },
            }
        }
    }
}

/// A run of the receiver only consumes bytes from the front of what it
/// holds: every message it reads takes at least `MIN_FRAME_LEN` bytes, and
/// at most one byte is dropped, at the end. It counts one message for each
/// message it returns and records the counter of the last one, and it stops
/// only on a dropped byte or when it waits for more bytes.
#[verifier::spinoff_prover]
pub proof fn lemma_rx_run(s: RxState)
    ensures
        ({
            let (t, ms, rejected) = rx_run(s);
            &&& t.fifo == s.fifo.subrange(s.fifo.len() - t.fifo.len(), s.fifo.len() as int)
            &&& s.fifo.len() - t.fifo.len() >= MIN_FRAME_LEN * ms.len() + (if rejected {
                1int
            } else {
                0int
            })
            &&& t.num_rx_msgs == (s.num_rx_msgs + ms.len()) % 0x10000
            &&& t.msg_counter == (if ms.len() == 0 {
                s.msg_counter
            } else {
                ms.last().counter
            })
            &&& !rejected ==> waits(t)
        }),
    decreases s.fifo.len(),
{
    lemma_decoded_len(s.fifo);
    match decoded_frame(s.fifo) {
        FrameRead::Message(m, used) => {
            assert(MIN_FRAME_LEN <= used <= s.fifo.len());
            let s2 = after_message(s, m, used);
            assert(s2.fifo.len() == s.fifo.len() - used);
            lemma_rx_run(s2);
            let (t, ms, rejected) = rx_run(s2);
            assert(rx_run(s) == (t, seq![m] + ms, rejected));
            assert((seq![m] + ms).len() == ms.len() + 1);
            assert((seq![m] + ms).last() == (if ms.len() == 0 {
                m
            } else {
                ms.last()
            }));
            assert(s2.num_rx_msgs == (s.num_rx_msgs + 1) % 0x10000);
            vstd::arithmetic::div_mod::lemma_add_mod_noop_right(
                ms.len() as int,
                s.num_rx_msgs + 1,
                0x10000,
            );
            assert(t.num_rx_msgs == (s.num_rx_msgs + (ms.len() + 1)) % 0x10000);
            assert(s.fifo.len() - t.fifo.len() == used + (s2.fifo.len() - t.fifo.len()));
            assert(t.fifo =~= s.fifo.subrange(s.fifo.len() - t.fifo.len(), s.fifo.len() as int));
        },
        FrameRead::Incomplete => {
            assert(rx_run(s) == (s, Seq::<AccMsg>::empty(), false));
            assert(waits(s));
            assert(s.fifo.subrange(0, s.fifo.len() as int) =~= s.fifo);
        },
        FrameRead::Unreadable => {
            if s.fifo.len() >= MIN_FRAME_LEN {
                assert(after_reject(s).fifo =~= s.fifo.subrange(1, s.fifo.len() as int));
                assert(rx_run(s) == (after_reject(s), Seq::<AccMsg>::empty(), true));
            } else {
                assert(s.fifo.subrange(0, s.fifo.len() as int) =~= s.fifo);
                assert(rx_run(s) == (s, Seq::<AccMsg>::empty(), false));
                assert(waits(s));
            }
        },
    }
}

} // verus!
