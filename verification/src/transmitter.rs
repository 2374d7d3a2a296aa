use vstd::prelude::*;

use crate::acc_msg::{wire_fields, AccMsg, ACC_MSG_SIZE};
use crate::message_id::MessageId;
use crate::queue::SampleQueue;
use crate::receiver::wrapping_inc;
use crate::wire::{encode_frame, frame_len, msg_frame, CRC_LEN};

verus! {

/// Size of the buffer the sensor serialises each frame into.
pub const TX_BUFFER_LEN: usize = 64;

/// Size of the buffer the simulator serialises each frame into: the
/// in-memory size of a message plus its checksum.
pub const SIM_BUFFER_LEN: usize = ACC_MSG_SIZE + CRC_LEN;

/// Every frame fits in the sensor's buffer: five varints of at most three
/// bytes and four checksum bytes.
pub proof fn lemma_frame_len_bounds(m: AccMsg)
    ensures
        9 <= frame_len(wire_fields(m)) <= 19,
{
}

/// The message the sensor sends for a sample: the current message with the
/// sample's three axes.
pub open spec fn with_sample(m: AccMsg, x: i16, y: i16, z: i16) -> AccMsg {
    AccMsg { acc_x: x, acc_y: y, acc_z: z, ..m }
}

/// A sample replaces exactly the three axes of the message.
pub proof fn lemma_with_sample(m: AccMsg, x: i16, y: i16, z: i16)
    ensures
        with_sample(m, x, y, z).id == m.id,
        with_sample(m, x, y, z).counter == m.counter,
        with_sample(m, x, y, z).acc_x == x,
        with_sample(m, x, y, z).acc_y == y,
        with_sample(m, x, y, z).acc_z == z,
{
}

/// The sensor side: turns accelerometer samples into frames, numbering
/// them with a counter that wraps at 2^16.
pub struct Transmitter {
    msg: AccMsg,
    /// Every sample framed so far, in order.
    samples: Ghost<Seq<(i16, i16, i16)>>,
}

impl View for Transmitter {
    type V = AccMsg;

    closed spec fn view(&self) -> AccMsg {
        self.msg
    }
}

impl Transmitter {
    /// A transmitter whose next message is `AccMsg::new()`.
    pub fn new() -> (t: Transmitter)
        ensures
            t@ == (AccMsg { id: MessageId::AccMsgId, counter: 0, acc_x: 0, acc_y: 0, acc_z: 0 }),
            t.wf(),
            t.sent_samples() == Seq::<(i16, i16, i16)>::empty(),
    {
        Transmitter { msg: AccMsg::new(), samples: Ghost(Seq::empty()) }
    }

    /// Every sample this transmitter has framed, in order.
    pub closed spec fn sent_samples(&self) -> Seq<(i16, i16, i16)> {
        self.samples@
    }

    /// The transmitter is where a fresh one gets to by framing the samples
    /// it has framed.
    pub closed spec fn wf(&self) -> bool {
        self.msg == after_sending(AccMsg::spec_new(), self.samples@)
    }

    /// Over a transmitter's whole life, the i-th sample it ever framed went
    /// out as an accelerometer message with counter i modulo 2^16, whatever
    /// became of the earlier frames; its next message continues that count.
    pub proof fn lemma_lifetime_numbering(&self)
        requires
            self.wf(),
        ensures
            self@ == after_sending(AccMsg::spec_new(), self.sent_samples()),
            self@.counter == self.sent_samples().len() % 0x10000,
            forall|i: int|
                0 <= i < self.sent_samples().len() ==> #[trigger] sent_msgs(
                    AccMsg::spec_new(),
                    self.sent_samples(),
                )[i] == (AccMsg {
                    id: MessageId::AccMsgId,
                    counter: (i % 0x10000) as u16,
                    acc_x: self.sent_samples()[i].0,
                    acc_y: self.sent_samples()[i].1,
                    acc_z: self.sent_samples()[i].2,
                }),
    {
        lemma_numbering_from_start(self.sent_samples());
    }

    /// The frame for sample `(x, y, z)`: the current message with these axes.
    /// The counter then moves on by one, wrapping.
    pub fn frame_sample(&mut self, x: i16, y: i16, z: i16) -> (frame: Vec<u8>)
        requires
            old(self).wf(),
        ensures
            final(self).wf(),
            final(self).sent_samples() == old(self).sent_samples().push((x, y, z)),
            frame@ == msg_frame(
                sent_msgs(AccMsg::spec_new(), final(self).sent_samples())[old(
                    self,
                ).sent_samples().len() as int],
            ),
            frame@ == msg_frame(with_sample(old(self)@, x, y, z)),
            frame@.len() == frame_len(wire_fields(with_sample(old(self)@, x, y, z))),
            frame@.len() <= TX_BUFFER_LEN,
            final(self)@ == (AccMsg {
                counter: wrapping_inc(old(self)@.counter),
                ..with_sample(old(self)@, x, y, z)
            }),
    {
        self.msg.acc_x = x;
        self.msg.acc_y = y;
        self.msg.acc_z = z;
        proof {
            lemma_frame_len_bounds(self.msg);
        }
        let frame = match encode_frame(&self.msg, TX_BUFFER_LEN) {
            Ok(v) => v,
            Err(_) => {
                assert(false);
                Vec::new()
            },
        };
        self.msg.counter = self.msg.counter.wrapping_add(1);
        let ghost before = self.samples@;
        self.samples = Ghost(self.samples@.push((x, y, z)));
        proof {
            let start = AccMsg::spec_new();
            lemma_sending_in_passes(start, before, seq![(x, y, z)]);
            assert(before + seq![(x, y, z)] =~= self.samples@);
            let mid = after_sending(start, before);
            assert(mid.counter < 0x10000);
            assert(sent_msgs(mid, seq![(x, y, z)])[0] == with_sample(old(self)@, x, y, z));
            assert(sent_msgs(start, self.samples@)[before.len() as int] == sent_msgs(
                mid,
                seq![(x, y, z)],
            )[0]);
        }
        frame
    }
}

/// The messages the transmitter in state `m` sends for `samples`, in order:
/// the i-th carries the i-th sample and counter `m.counter + i`, wrapping.
pub open spec fn sent_msgs(m: AccMsg, samples: Seq<(i16, i16, i16)>) -> Seq<AccMsg> {
    Seq::new(
        samples.len(),
        |i: int|
            AccMsg {
                id: m.id,
                counter: ((m.counter + i) % 0x10000) as u16,
                acc_x: samples[i].0,
                acc_y: samples[i].1,
                acc_z: samples[i].2,
            },
    )
}

/// The transmitter's message after sending `samples` from state `m`.
pub open spec fn after_sending(m: AccMsg, samples: Seq<(i16, i16, i16)>) -> AccMsg {
    if samples.len() == 0 {
        m
    } else {
        AccMsg {
            counter: ((m.counter + samples.len()) % 0x10000) as u16,
            ..with_sample(m, samples.last().0, samples.last().1, samples.last().2)
        }
    }
}

impl Transmitter {
    /// Takes every sample waiting in `queue`, oldest first, and returns the
    /// frame of each, numbered consecutively. The queue is left empty.
    pub fn send_queued(&mut self, queue: &mut SampleQueue) -> (frames: Vec<Vec<u8>>)
        requires
            old(self).wf(),
        ensures
            final(self).wf(),
            final(self).sent_samples() == old(self).sent_samples() + old(queue)@,
            forall|i: int|
                0 <= i < frames@.len() ==> #[trigger] frames@[i]@ == msg_frame(
                    sent_msgs(AccMsg::spec_new(), final(self).sent_samples())[old(
                        self,
                    ).sent_samples().len() + i],
                ),
            final(queue)@ == Seq::<(i16, i16, i16)>::empty(),
            frames@.len() == old(queue)@.len(),
            forall|i: int|
                0 <= i < frames@.len() ==> #[trigger] frames@[i]@ == msg_frame(
                    sent_msgs(old(self)@, old(queue)@)[i],
                ),
            final(self)@ == after_sending(old(self)@, old(queue)@),
    {
        let ghost samples = queue@;
        let ghost start = self@;
        let mut frames: Vec<Vec<u8>> = Vec::new();
        loop
            invariant
                samples == old(queue)@,
                start == old(self)@,
                0 <= frames@.len() <= samples.len(),
                self.wf(),
                self.sent_samples() == old(self).sent_samples() + samples.subrange(
                    0,
                    frames@.len() as int,
                ),
                forall|i: int|
                    0 <= i < frames@.len() ==> #[trigger] frames@[i]@ == msg_frame(
                        sent_msgs(AccMsg::spec_new(), old(self).sent_samples() + samples)[old(
                            self,
                        ).sent_samples().len() + i],
                    ),
                queue@ == samples.subrange(frames@.len() as int, samples.len() as int),
                self@ == after_sending(start, samples.subrange(0, frames@.len() as int)),
                forall|i: int|
                    0 <= i < frames@.len() ==> #[trigger] frames@[i]@ == msg_frame(
                        sent_msgs(start, samples)[i],
                    ),
            decreases queue@.len(),
        {
            let ghost k = frames@.len() as int;
            match queue.pop_sample() {
                None => {
                    assert(k == samples.len());
                    assert(samples.subrange(0, k) =~= samples);
                    assert(old(self).sent_samples() + samples.subrange(0, k) =~= old(self).sent_samples() + samples);
                    return frames;
                },
                Some(s) => {
                    assert(s == samples[k]);
                    let ghost before = self@;
                    let f = self.frame_sample(s.0, s.1, s.2);
                    proof {
                        let prefix = samples.subrange(0, k);
                        if k > 0 {
                            assert(before.counter == (start.counter + k) % 0x10000);
                        } else {
                            assert(before == start);
                        }
                        assert(with_sample(before, s.0, s.1, s.2) == sent_msgs(start, samples)[k]);
                        assert(samples.subrange(0, k + 1).last() == s);
                        let all = old(self).sent_samples() + samples;
                        let now = self.sent_samples();
                        assert(now =~= old(self).sent_samples() + samples.subrange(0, k + 1));
                        let j = old(self).sent_samples().len() + k;
                        assert(now[j] == all[j]);
                        assert(sent_msgs(AccMsg::spec_new(), now)[j] == sent_msgs(AccMsg::spec_new(), all)[j]);
                    }
                    let ghost prev_frames = frames@;
                    frames.push(f);
                    proof {
                        assert forall|i: int|
                            0 <= i < frames@.len() implies #[trigger] frames@[i]@ == msg_frame(
                                sent_msgs(AccMsg::spec_new(), old(self).sent_samples() + samples)[old(
                                    self,
                                ).sent_samples().len() + i],
                            ) by {
                            if i < prev_frames.len() {
                                assert(frames@[i] == prev_frames[i]);
                            }
                        }
                    }
                    assert(queue@ =~= samples.subrange(frames@.len() as int, samples.len() as int));
                },
            }
        }
    }
}

/// Sending in passes numbers the messages as sending all samples at once
/// would: the second pass carries on from the counter the first left, and
/// ends in the same state.
pub proof fn lemma_sending_in_passes(m: AccMsg, a: Seq<(i16, i16, i16)>, b: Seq<(i16, i16, i16)>)
    ensures
        sent_msgs(m, a + b) == sent_msgs(m, a) + sent_msgs(after_sending(m, a), b),
        after_sending(after_sending(m, a), b) == after_sending(m, a + b),
{
    let ma = after_sending(m, a);
    assert forall|i: int| 0 <= i < b.len() implies #[trigger] sent_msgs(ma, b)[i] == sent_msgs(
        m,
        a + b,
    )[a.len() + i] by {
        if a.len() > 0 {
            vstd::arithmetic::div_mod::lemma_add_mod_noop_right(i, m.counter + a.len(), 0x10000);
        }
    }
    assert(sent_msgs(m, a + b) =~= sent_msgs(m, a) + sent_msgs(ma, b));
    if b.len() == 0 {
        assert(a + b =~= a);
    } else {
        assert((a + b).last() == b.last());
        if a.len() > 0 {
            vstd::arithmetic::div_mod::lemma_add_mod_noop_right(
                b.len() as int,
                m.counter + a.len(),
                0x10000,
            );
        }
    }
}

/// From a fresh transmitter, the i-th sample ever sent goes out as an
/// accelerometer message with counter i modulo 2^16; with
/// `lemma_sending_in_passes` this holds over any number of passes.
pub proof fn lemma_numbering_from_start(s: Seq<(i16, i16, i16)>)
    ensures
        forall|i: int|
            0 <= i < s.len() ==> #[trigger] sent_msgs(AccMsg::spec_new(), s)[i] == (AccMsg {
                id: MessageId::AccMsgId,
                counter: (i % 0x10000) as u16,
                acc_x: s[i].0,
                acc_y: s[i].1,
                acc_z: s[i].2,
            }),
{
}

/// Bytes the simulator sends ahead of every tenth frame, so that the
/// receiver has to fall back into step.
pub open spec fn garbage_bytes() -> Seq<u8> {
    seq![1u8, 2, 3]
}

/// Index of the byte the simulator inverts in every hundredth frame, so
/// that its checksum fails.
pub const CORRUPT_INDEX: usize = 3;

/// The abstract state of the simulator: the message it last built and the
/// counter of the next one.
pub struct SimView {
    pub msg: AccMsg,
    pub counter: u16,
}

/// The next message of the simulator: numbered with its counter, each axis
/// stepped and wrapped (x by 1 modulo 10, y by 2 modulo 20, z by 3 modulo 30).
pub open spec fn sim_next_msg(s: SimView) -> AccMsg {
    AccMsg {
        id: s.msg.id,
        counter: s.counter,
        acc_x: ((s.msg.acc_x + 1) % 10) as i16,
        acc_y: ((s.msg.acc_y + 2) % 20) as i16,
        acc_z: ((s.msg.acc_z + 3) % 30) as i16,
    }
}

/// The bytes of the simulator's next frame: the frame of its next message,
/// with byte `CORRUPT_INDEX` inverted when the counter is a multiple of 100.
pub open spec fn sim_frame(s: SimView) -> Seq<u8> {
    let f = msg_frame(sim_next_msg(s));
    if s.counter % 100 == 0 {
        f.update(CORRUPT_INDEX as int, !f[CORRUPT_INDEX as int])
    } else {
        f
    }
}

/// The simulator's state after `k` steps from `Simulator::new()`.
pub open spec fn sim_after(k: nat) -> SimView
    decreases k,
{
    if k == 0 {
        SimView { msg: AccMsg::spec_new(), counter: 0 }
    } else {
        let p = sim_after((k - 1) as nat);
        SimView { msg: sim_next_msg(p), counter: wrapping_inc(p.counter) }
    }
}

/// After `k` steps from a fresh simulator, its last message has axes
/// `k mod 10`, `2k mod 20` and `3k mod 30` and counter `k - 1` (modulo
/// 2^16), and its counter is `k` modulo 2^16: each step moves the axes on
/// by 1, 2 and 3, wrapping at 10, 20 and 30.
pub proof fn lemma_sim_after(k: nat)
    ensures
        sim_after(k).counter == k % 0x10000,
        sim_after(k).msg.id == MessageId::AccMsgId,
        sim_after(k).msg.acc_x == k % 10,
        sim_after(k).msg.acc_y == (2 * k) % 20,
        sim_after(k).msg.acc_z == (3 * k) % 30,
        k > 0 ==> sim_after(k).msg.counter == (k - 1) % 0x10000,
    decreases k,
{
    if k > 0 {
        let j = (k - 1) as nat;
        lemma_sim_after(j);
        vstd::arithmetic::div_mod::lemma_add_mod_noop(j as int, 1, 10);
        vstd::arithmetic::div_mod::lemma_add_mod_noop((2 * j) as int, 2, 20);
        vstd::arithmetic::div_mod::lemma_add_mod_noop((3 * j) as int, 3, 30);
        vstd::arithmetic::div_mod::lemma_add_mod_noop(j as int, 1, 0x10000);
        assert(2 * k == 2 * j + 2);
        assert(3 * k == 3 * j + 3);
    }
}

/// One simulator step moves the axes on by 1, 2 and 3, wrapping at 10, 20
/// and 30, numbers the message with the simulator's counter and keeps the
/// identifier.
pub proof fn lemma_sim_next_msg(s: SimView)
    requires
        0 <= s.msg.acc_x,
        0 <= s.msg.acc_y,
        0 <= s.msg.acc_z,
    ensures
        sim_next_msg(s).acc_x == (s.msg.acc_x + 1) % 10,
        sim_next_msg(s).acc_y == (s.msg.acc_y + 2) % 20,
        sim_next_msg(s).acc_z == (s.msg.acc_z + 3) % 30,
        sim_next_msg(s).counter == s.counter,
        sim_next_msg(s).id == s.msg.id,
{
}

/// A simulator frame is the frame of its message with byte 3 inverted when
/// the counter is a multiple of 100, and unchanged otherwise.
pub proof fn lemma_sim_frame(s: SimView)
    requires
        msg_frame(sim_next_msg(s)).len() > 3,
    ensures
        sim_frame(s).len() == msg_frame(sim_next_msg(s)).len(),
        sim_frame(s)[3] == (if s.counter % 100 == 0 {
            !msg_frame(sim_next_msg(s))[3]
        } else {
            msg_frame(sim_next_msg(s))[3]
        }),
        forall|i: int|
            0 <= i < sim_frame(s).len() && i != 3 ==> #[trigger] sim_frame(s)[i] == msg_frame(
                sim_next_msg(s),
            )[i],
{
}

/// What one step of the simulator sends.
pub struct SimStep {
    /// Bytes that go out ahead of the frame: `garbage_bytes()` or none.
    pub garbage: Vec<u8>,
    /// The message the frame carries.
    pub msg: AccMsg,
    /// The bytes of the frame.
    pub frame: Vec<u8>,
}

/// A sensor stand-in that sends slowly changing test messages, with
/// injected garbage and corrupted frames.
pub struct Simulator {
    msg: AccMsg,
    counter: u16,
    /// How many steps were taken since `new`.
    steps: Ghost<nat>,
}

impl View for Simulator {
    type V = SimView;

    closed spec fn view(&self) -> SimView {
        SimView { msg: self.msg, counter: self.counter }
    }
}

impl Simulator {
    #[verifier::type_invariant]
    spec fn inv(self) -> bool {
        &&& self.msg.id == MessageId::AccMsgId
        &&& self.msg.acc_x == self.steps@ % 10
        &&& self.msg.acc_y == (2 * self.steps@) % 20
        &&& self.msg.acc_z == (3 * self.steps@) % 30
        &&& self.counter == self.steps@ % 0x10000
    }

    /// How many steps were taken since `new`.
    pub closed spec fn steps(&self) -> nat {
        self.steps@
    }

    /// A simulator starting from `AccMsg::new()` with counter zero.
    pub fn new() -> (s: Simulator)
        ensures
            s@.msg == (AccMsg { id: MessageId::AccMsgId, counter: 0, acc_x: 0, acc_y: 0, acc_z: 0 }),
            s@.counter == 0,
            s.steps() == 0,
    {
        Simulator { msg: AccMsg::new(), counter: 0, steps: Ghost(0) }
    }

    /// One step: garbage goes out ahead of the frame when the counter is a
    /// multiple of 10; the frame carries the next message and is corrupted
    /// when the counter is a multiple of 100; the counter then moves on by
    /// one, wrapping.
    pub fn step(&mut self) -> (out: SimStep)
        ensures
            out.garbage@ == (if old(self)@.counter % 10 == 0 {
                garbage_bytes()
            } else {
                Seq::<u8>::empty()
            }),
            out.msg == sim_next_msg(old(self)@),
            out.frame@ == sim_frame(old(self)@),
            out.frame@.len() <= SIM_BUFFER_LEN,
            final(self)@ == (SimView {
                msg: sim_next_msg(old(self)@),
                counter: wrapping_inc(old(self)@.counter),
            }),
            out.msg.id == MessageId::AccMsgId,
            out.msg.counter == old(self)@.counter,
            out.msg.acc_x == (old(self)@.msg.acc_x + 1) % 10,
            out.msg.acc_y == (old(self)@.msg.acc_y + 2) % 20,
            out.msg.acc_z == (old(self)@.msg.acc_z + 3) % 30,
            final(self).steps() == old(self).steps() + 1,
            out.msg.counter == old(self).steps() % 0x10000,
            out.msg.acc_x == (old(self).steps() + 1) % 10,
            out.msg.acc_y == (2 * (old(self).steps() + 1)) % 20,
            out.msg.acc_z == (3 * (old(self).steps() + 1)) % 30,
            final(self)@.counter == (old(self)@.counter + 1) % 0x10000,
            out.garbage@ == (if old(self)@.counter % 10 == 0 {
                seq![1u8, 2u8, 3u8]
            } else {
                Seq::<u8>::empty()
            }),
            out.frame@.len() == msg_frame(out.msg).len(),
            forall|i: int|
                0 <= i < out.frame@.len() && i != 3 ==> #[trigger] out.frame@[i] == msg_frame(
                    out.msg,
                )[i],
            out.frame@[3] == (if old(self)@.counter % 100 == 0 {
                !msg_frame(out.msg)[3]
            } else {
                msg_frame(out.msg)[3]
            }),
    {
        proof {
            use_type_invariant(&*self);
        }
        let mut garbage: Vec<u8> = Vec::new();
        if self.counter % 10 == 0 {
            garbage.push(1);
            garbage.push(2);
            garbage.push(3);
            assert(garbage@ =~= garbage_bytes());
        }
        let next = AccMsg {
            id: self.msg.id,
            counter: self.counter,
            acc_x: (self.msg.acc_x + 1) % 10,
            acc_y: (self.msg.acc_y + 2) % 20,
            acc_z: (self.msg.acc_z + 3) % 30,
        };
        assert(next == sim_next_msg(self@));
        let mut frame = match encode_frame(&next, SIM_BUFFER_LEN) {
            Ok(v) => v,
            Err(_) => {
                assert(false);
                Vec::new()
            },
        };
        if self.counter % 100 == 0 {
            let b = frame[CORRUPT_INDEX];
            frame.set(CORRUPT_INDEX, !b);
        }
        let ghost k = self.steps@;
        proof {
            vstd::arithmetic::div_mod::lemma_add_mod_noop(k as int, 1, 10);
            vstd::arithmetic::div_mod::lemma_add_mod_noop((2 * k) as int, 2, 20);
            vstd::arithmetic::div_mod::lemma_add_mod_noop((3 * k) as int, 3, 30);
            vstd::arithmetic::div_mod::lemma_add_mod_noop(k as int, 1, 0x10000);
            assert(2 * (k + 1) == 2 * k + 2);
            assert(3 * (k + 1) == 3 * k + 3);
        }
        *self = Simulator {
            msg: next,
            counter: self.counter.wrapping_add(1),
            steps: Ghost(k + 1),
        };
        SimStep { garbage, msg: next, frame }
    }
}

} // verus!
