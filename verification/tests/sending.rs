use shared::acc_msg::AccMsg;
use shared::message_id::MessageId;
use shared::queue::{SampleQueue, QUEUE_CAPACITY};
use shared::receiver::Receiver;
use shared::transmitter::{Simulator, Transmitter, CORRUPT_INDEX, SIM_BUFFER_LEN, TX_BUFFER_LEN};
use shared::wire::{decode_frame, encode_frame};

#[test]
fn transmitter_numbers_frames() {
    let mut tx = Transmitter::new();
    let f0 = tx.frame_sample(16384, -16384, 5);
    let f1 = tx.frame_sample(1, 2, 3);
    let m0 = AccMsg { id: MessageId::AccMsgId, counter: 0, acc_x: 16384, acc_y: -16384, acc_z: 5 };
    let m1 = AccMsg { id: MessageId::AccMsgId, counter: 1, acc_x: 1, acc_y: 2, acc_z: 3 };
    assert_eq!(f0, encode_frame(&m0, 64).unwrap());
    assert_eq!(decode_frame(&f1).unwrap(), (m1, f1.len()));
    assert!(f0.len() <= TX_BUFFER_LEN);
}

#[test]
fn transmitter_counter_wraps() {
    let mut tx = Transmitter::new();
    for _ in 0..65535u32 {
        tx.frame_sample(0, 0, 0);
    }
    let last = tx.frame_sample(i16::MIN, i16::MIN, i16::MIN);
    assert_eq!(last.len(), 4 + 1 + 3 + 3 + 3 + 3);
    assert_eq!(decode_frame(&last).unwrap().0.counter, 65535);
    let wrapped = tx.frame_sample(0, 0, 0);
    assert_eq!(decode_frame(&wrapped).unwrap().0.counter, 0);
}

#[test]
fn simulator_first_steps() {
    let mut sim = Simulator::new();
    let s0 = sim.step();
    assert_eq!(s0.garbage, vec![1, 2, 3]);
    assert_eq!(s0.msg, AccMsg { id: MessageId::AccMsgId, counter: 0, acc_x: 1, acc_y: 2, acc_z: 3 });
    // Counter zero is a multiple of 100: the frame is corrupted.
    let mut clean = encode_frame(&s0.msg, 64).unwrap();
    assert_ne!(s0.frame, clean);
    clean[CORRUPT_INDEX] = !clean[CORRUPT_INDEX];
    assert_eq!(s0.frame, clean);
    assert!(decode_frame(&s0.frame).is_err());
    let s1 = sim.step();
    assert!(s1.garbage.is_empty());
    assert_eq!(s1.msg, AccMsg { id: MessageId::AccMsgId, counter: 1, acc_x: 2, acc_y: 4, acc_z: 6 });
    assert_eq!(decode_frame(&s1.frame).unwrap().0, s1.msg);
}

#[test]
fn simulator_axes_cycle() {
    let mut sim = Simulator::new();
    let mut xs = Vec::new();
    for _ in 0..12 {
        xs.push(sim.step().msg.acc_x);
    }
    assert_eq!(xs, vec![1, 2, 3, 4, 5, 6, 7, 8, 9, 0, 1, 2]);
    let mut sim = Simulator::new();
    let mut zs = Vec::new();
    for _ in 0..11 {
        zs.push(sim.step().msg.acc_z);
    }
    assert_eq!(zs, vec![3, 6, 9, 12, 15, 18, 21, 24, 27, 0, 3]);
}

#[test]
fn simulator_schedule_and_buffer() {
    let mut sim = Simulator::new();
    for n in 0..1000u32 {
        let s = sim.step();
        assert_eq!(s.garbage.is_empty(), n % 10 != 0);
        assert!(s.frame.len() <= SIM_BUFFER_LEN);
        assert_eq!(s.msg.counter as u32, n);
        assert_eq!(decode_frame(&s.frame).is_ok(), n % 100 != 0);
    }
}

#[test]
fn simulator_stream_reaches_receiver() {
    let mut sim = Simulator::new();
    let mut rx = Receiver::new();
    let mut sent = Vec::new();
    let mut got = Vec::new();
    for _ in 0..300 {
        let s = sim.step();
        rx.extend(&s.garbage);
        rx.extend(&s.frame);
        sent.push(s.msg);
        let (msgs, _) = rx.process();
        got.extend(msgs);
    }
    // Every intact frame gets through, in order; the corrupted ones do not.
    let expected: Vec<AccMsg> = sent.iter().copied().filter(|m| m.counter % 100 != 0).collect();
    assert_eq!(got, expected);
    assert!(got.iter().all(|m| m.counter % 100 != 0));
}

#[test]
fn sample_queue_keeps_seven_and_drops_the_rest() {
    let mut q = SampleQueue::new();
    for i in 0..10i16 {
        assert_eq!(q.push_sample((i, -i, 2 * i)), (i as usize) < QUEUE_CAPACITY);
    }
    for i in 0..7i16 {
        assert_eq!(q.pop_sample(), Some((i, -i, 2 * i)));
    }
    assert_eq!(q.pop_sample(), None);
    assert!(q.push_sample((9, 9, 9)));
    assert_eq!(q.pop_sample(), Some((9, 9, 9)));
}

#[test]
fn transmitter_sends_queued_samples_in_order() {
    let mut q = SampleQueue::new();
    let mut tx = Transmitter::new();
    q.push_sample((1, 2, 3));
    q.push_sample((-4, 5, -6));
    q.push_sample((700, -800, 900));
    let frames = tx.send_queued(&mut q);
    assert_eq!(frames.len(), 3);
    assert_eq!(q.pop_sample(), None);
    let got: Vec<AccMsg> = frames.iter().map(|f| decode_frame(f).unwrap().0).collect();
    assert_eq!(
        got,
        vec![
            AccMsg { id: MessageId::AccMsgId, counter: 0, acc_x: 1, acc_y: 2, acc_z: 3 },
            AccMsg { id: MessageId::AccMsgId, counter: 1, acc_x: -4, acc_y: 5, acc_z: -6 },
            AccMsg { id: MessageId::AccMsgId, counter: 2, acc_x: 700, acc_y: -800, acc_z: 900 },
        ]
    );
    assert!(tx.send_queued(&mut q).is_empty());
    let next = tx.frame_sample(0, 0, 0);
    assert_eq!(decode_frame(&next).unwrap().0.counter, 3);
}

#[test]
fn transmitter_numbering_carries_over_passes() {
    let mut q = SampleQueue::new();
    let mut tx = Transmitter::new();
    let mut counters = Vec::new();
    for pass in 0..20i16 {
        for k in 0..(pass % 5) {
            q.push_sample((pass, k, 0));
        }
        for f in tx.send_queued(&mut q) {
            counters.push(decode_frame(&f).unwrap().0.counter);
        }
    }
    let expected: Vec<u16> = (0..counters.len() as u16).collect();
    assert_eq!(counters, expected);
}

#[test]
fn transmitter_counts_on_after_a_wrap_across_passes() {
    let mut tx = Transmitter::new();
    let mut q = SampleQueue::new();
    let mut last = 0u16;
    for n in 0..70000u32 {
        if n % 3 == 0 {
            q.push_sample((1, 1, 1));
            for f in tx.send_queued(&mut q) {
                last = decode_frame(&f).unwrap().0.counter;
            }
        } else {
            let f = tx.frame_sample(0, 0, 0);
            last = decode_frame(&f).unwrap().0.counter;
        }
        assert_eq!(last as u32, n % 65536);
    }
}
