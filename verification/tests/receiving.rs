use shared::acc_msg::AccMsg;
use shared::history::History;
use shared::message_id::MessageId;
use shared::rate::{MsgTimes, TIME_AVG_SAMPLES};
use shared::receiver::{Receiver, RxEvent, MIN_FRAME_LEN};
use shared::wire::{encode_frame, FrameError};

fn msg(counter: u16, x: i16, y: i16, z: i16) -> AccMsg {
    AccMsg { id: MessageId::AccMsgId, counter, acc_x: x, acc_y: y, acc_z: z }
}

fn frame(m: &AccMsg) -> Vec<u8> {
    encode_frame(m, 64).unwrap()
}

#[test]
fn min_frame_len_is_five_bytes_and_checksum() {
    assert_eq!(MIN_FRAME_LEN, 9);
}

#[test]
fn receiver_reads_a_lone_shortest_frame() {
    let mut rx = Receiver::new();
    let f = frame(&AccMsg::new());
    assert_eq!(f.len(), 9);
    rx.extend(&f);
    let (msgs, err) = rx.process();
    assert_eq!(msgs, vec![AccMsg::new()]);
    assert!(err.is_none());
    assert!(rx.pending().is_empty());
    assert_eq!(rx.num_rx_msgs(), 1);
    // Nothing more arrives: nothing more happens.
    let (msgs, err) = rx.process();
    assert!(msgs.is_empty() && err.is_none());
}

#[test]
fn receiver_keeps_a_split_frame_until_complete() {
    let m1 = AccMsg { id: MessageId::AccMsgId, counter: 0xFFFF, acc_x: i16::MIN, acc_y: i16::MIN, acc_z: i16::MIN };
    let f = frame(&m1);
    assert_eq!(f.len(), 17);
    let mut rx = Receiver::new();
    rx.extend(&f[..15]);
    let (msgs, err) = rx.process();
    assert!(msgs.is_empty());
    assert!(err.is_none());
    assert_eq!(rx.pending(), &f[..15]);
    rx.extend(&f[15..]);
    let (msgs, err) = rx.process();
    assert_eq!(msgs, vec![m1]);
    assert!(err.is_none());
    assert!(rx.pending().is_empty());
}

#[test]
fn receiver_keeps_every_prefix_of_a_frame() {
    let m = msg(300, -300, 3000, -30000);
    let f = frame(&m);
    for n in 0..f.len() {
        let mut rx = Receiver::new();
        rx.extend(&f[..n]);
        assert!(rx.poll().is_none());
        assert_eq!(rx.pending(), &f[..n]);
    }
}

#[test]
fn receiver_reads_consecutive_frames() {
    let mut rx = Receiver::new();
    let a = msg(10, 1, 2, 3);
    let b = msg(11, -4, 5, -6);
    let c = msg(12, 7, -8, 9);
    for m in [a, b, c] {
        rx.extend(&frame(&m));
    }
    let (msgs, err) = rx.process();
    assert_eq!(msgs, vec![a, b, c]);
    assert!(err.is_none());
    assert!(rx.pending().is_empty());
    assert_eq!(rx.msg_counter(), 12);
    assert_eq!(rx.num_rx_msgs(), 3);
}

#[test]
fn receiver_poll_reads_one_frame() {
    let mut rx = Receiver::new();
    let a = msg(300, -300, 3000, -30000);
    let b = msg(301, 0, 0, 0);
    rx.extend(&frame(&a));
    rx.extend(&frame(&b));
    match rx.poll() {
        Some(RxEvent::Received(m)) => assert_eq!(m, a),
        other => panic!("unexpected {:?}", other),
    }
    assert_eq!(rx.pending(), &frame(&b)[..]);
    assert_eq!(rx.msg_counter(), 300);
}

#[test]
fn receiver_drops_one_byte_per_failed_read() {
    let mut rx = Receiver::new();
    let a = msg(1, 1, 2, 3);
    let b = msg(2, 2, 4, 6);
    rx.extend(&[1, 2, 3]);
    rx.extend(&frame(&a));
    rx.extend(&frame(&b));
    for dropped in 1..=3usize {
        let (msgs, err) = rx.process();
        assert!(msgs.is_empty());
        assert!(err.is_some());
        assert_eq!(rx.pending().len(), 21 - dropped);
    }
    let (msgs, err) = rx.process();
    assert_eq!(msgs, vec![a, b]);
    assert!(err.is_none());
    assert!(rx.pending().is_empty());
}

#[test]
fn receiver_skips_corrupted_frame() {
    let mut rx = Receiver::new();
    let a = msg(1, 1, 2, 3);
    let b = msg(2, 2, 4, 6);
    let mut fa = frame(&a);
    let last = fa.len() - 1;
    fa[last] = !fa[last];
    rx.extend(&fa);
    rx.extend(&frame(&b));
    let mut got = Vec::new();
    let mut errors = 0;
    for _ in 0..20 {
        let (msgs, err) = rx.process();
        got.extend(msgs);
        if err.is_some() {
            errors += 1;
        }
    }
    // The nine bytes of the corrupted frame are dropped one by one.
    assert_eq!(errors, 9);
    assert_eq!(got, vec![b]);
    assert!(rx.pending().is_empty());
}

#[test]
fn receiver_unknown_identifier_is_dropped() {
    let crc = crc::Crc::<u32>::new(&crc::CRC_32_CKSUM);
    let bad = postcard::to_allocvec_crc32(&(7u16, 1u16, 2i16, 3i16, 4i16), crc.digest()).unwrap();
    let good = msg(4, 4, 4, 4);
    let mut rx = Receiver::new();
    rx.extend(&bad);
    rx.extend(&frame(&good));
    let (msgs, err) = rx.process();
    assert!(msgs.is_empty());
    assert!(matches!(err, Some(FrameError::UnknownId(7))));
    let mut got = Vec::new();
    for _ in 0..20 {
        got.extend(rx.process().0);
    }
    assert_eq!(got, vec![good]);
}

#[test]
fn receiver_message_count_wraps() {
    let f = frame(&msg(5, 1, 1, 1));
    let mut rx = Receiver::new();
    for _ in 0..65537u32 {
        rx.extend(&f);
        assert!(matches!(rx.poll(), Some(RxEvent::Received(_))));
    }
    assert_eq!(rx.num_rx_msgs(), 1);
    assert_eq!(rx.msg_counter(), 5);
}

#[test]
fn rate_window_span_and_drain() {
    let mut w = MsgTimes::new();
    assert_eq!(w.span(), None);
    assert_eq!(w.record(100), None);
    assert_eq!(w.record(350), Some((1, 250)));
    for t in 0..(TIME_AVG_SAMPLES as u64 - 2) {
        w.record(400 + t);
    }
    assert_eq!(w.len(), TIME_AVG_SAMPLES);
    // The span is taken over all times before the oldest are dropped.
    assert_eq!(w.record(1_000_000), Some((TIME_AVG_SAMPLES, 1_000_000 - 100)));
    assert_eq!(w.len(), 1);
    assert_eq!(w.span(), None);
    assert_eq!(w.record(999_000), Some((1, 0)));
}

#[test]
fn history_keeps_newest_first_and_limits() {
    let mut h = History::new();
    for i in 0..5u16 {
        h.push_newest(msg(i, 0, 0, 0));
    }
    assert_eq!(h.len(), 5);
    assert_eq!(h.get(0).counter, 4);
    assert_eq!(h.get(4).counter, 0);
    h.limit(10);
    assert_eq!(h.len(), 5);
    h.limit(2);
    assert_eq!(h.len(), 2);
    assert_eq!((h.get(0).counter, h.get(1).counter), (4, 3));
    h.limit(0);
    assert_eq!(h.len(), 0);
}
