use shared::acc_msg::AccMsg;
use shared::message_id::MessageId;
use shared::wire::{decode_frame, encode_frame, frame_from_reads, FrameError, ReadFailure};

fn msg(counter: u16, x: i16, y: i16, z: i16) -> AccMsg {
    AccMsg { id: MessageId::AccMsgId, counter, acc_x: x, acc_y: y, acc_z: z }
}

fn tuple_frame(f: (u16, u16, i16, i16, i16)) -> Vec<u8> {
    let crc = crc::Crc::<u32>::new(&crc::CRC_32_CKSUM);
    postcard::to_allocvec_crc32(&f, crc.digest()).unwrap()
}

#[test]
fn frame_of_new_message_exact_bytes() {
    let f = encode_frame(&AccMsg::new(), 64).unwrap();
    assert_eq!(f, vec![0x01, 0x00, 0x00, 0x00, 0x00, 0x72, 0x98, 0xF2, 0xB6]);
}

#[test]
fn frame_varints_and_zigzag_exact_bytes() {
    let f = encode_frame(&msg(300, -5, 64, -32768), 64).unwrap();
    assert_eq!(
        f,
        vec![0x01, 0xAC, 0x02, 0x09, 0x80, 0x01, 0xFF, 0xFF, 0x03, 0xD6, 0xD0, 0xAA, 0xEC]
    );
}

#[test]
fn frame_capacity_exactly_enough_and_one_short() {
    let m = msg(300, -5, 64, -32768);
    assert_eq!(encode_frame(&m, 13).unwrap().len(), 13);
    assert!(matches!(
        encode_frame(&m, 12),
        Err(FrameError::BufferTooSmall(postcard::Error::SerializeBufferFull))
    ));
}

#[test]
fn decode_reads_back_encoded_frame() {
    let m = msg(300, -5, 64, -32768);
    let f = encode_frame(&m, 64).unwrap();
    assert_eq!(decode_frame(&f).unwrap(), (m, 13));
}

#[test]
fn decode_leaves_trailing_bytes() {
    let m = msg(65535, i16::MIN, i16::MAX, -1);
    let mut bytes = encode_frame(&m, 64).unwrap();
    let n = bytes.len();
    bytes.extend_from_slice(&[0xAA, 0xBB, 0xCC]);
    assert_eq!(decode_frame(&bytes).unwrap(), (m, n));
    assert_eq!(n, 4 + 1 + 3 + 3 + 3 + 1);
}

#[test]
fn decode_roundtrip_many_messages() {
    let values: [i16; 9] = [0, 1, -1, 63, -64, 64, 8191, -8193, i16::MIN];
    for (i, x) in values.iter().enumerate() {
        let m = AccMsg {
            id: if i % 2 == 0 { MessageId::AccMsgId } else { MessageId::UnknownId },
            counter: (i as u16) * 8000,
            acc_x: *x,
            acc_y: x.wrapping_mul(3),
            acc_z: -x.wrapping_add(7),
        };
        let f = encode_frame(&m, 64).unwrap();
        assert_eq!(f, tuple_frame(m.to_wire()));
        assert_eq!(decode_frame(&f).unwrap(), (m, f.len()));
    }
}

#[test]
fn decode_rejects_bad_checksum() {
    let mut f = encode_frame(&msg(1, 2, 3, 4), 64).unwrap();
    let last = f.len() - 1;
    f[last] = !f[last];
    assert!(matches!(
        decode_frame(&f),
        Err(FrameError::Postcard(ReadFailure::BadChecksum, postcard::Error::DeserializeBadCrc))
    ));
}

#[test]
fn decode_reports_incomplete_input() {
    let f = encode_frame(&msg(300, -300, 3000, -30000), 64).unwrap();
    for n in 0..f.len() {
        assert!(matches!(decode_frame(&f[..n]), Err(FrameError::Incomplete)));
    }
    assert!(matches!(decode_frame(&[]), Err(FrameError::Incomplete)));
}

#[test]
fn decode_consumed_prefix_reads_alone() {
    let m = msg(9, -9, 99, -999);
    let mut bytes = encode_frame(&m, 64).unwrap();
    bytes.extend_from_slice(&[5, 6, 7, 8, 9, 10, 11, 12, 13, 14]);
    let (got, used) = decode_frame(&bytes).unwrap();
    assert_eq!(decode_frame(&bytes[..used]).unwrap(), (got, used));
}

#[test]
fn decode_rejects_unknown_identifier() {
    let f = tuple_frame((7, 1, 2, 3, 4));
    assert!(matches!(decode_frame(&f), Err(FrameError::UnknownId(7))));
    // The identifier is read first: an unknown one is refused whatever follows.
    let mut bad = f.clone();
    let last = bad.len() - 1;
    bad[last] = !bad[last];
    assert!(matches!(decode_frame(&bad), Err(FrameError::UnknownId(7))));
    assert!(matches!(decode_frame(&[7]), Err(FrameError::UnknownId(7))));
}

#[test]
fn decode_rejects_overlong_varint() {
    let mut payload = vec![0xFFu8, 0xFF, 0xFF, 0x01];
    let crc = crc::Crc::<u32>::new(&crc::CRC_32_CKSUM);
    let c = crc.checksum(&payload);
    payload.extend_from_slice(&c.to_le_bytes());
    assert!(matches!(
        decode_frame(&payload),
        Err(FrameError::Postcard(ReadFailure::BadVarint, postcard::Error::DeserializeBadVarint))
    ));
}

#[test]
fn frame_from_reads_decides_by_identifier_first() {
    let ok_frame: Result<((u16, u16, i16, i16, i16), usize), (ReadFailure, postcard::Error)> =
        Ok(((1, 5, -1, 2, -3), 4));
    let m = AccMsg { id: MessageId::AccMsgId, counter: 5, acc_x: -1, acc_y: 2, acc_z: -3 };
    assert_eq!(frame_from_reads(Ok((1, 12)), ok_frame.clone(), 13).unwrap(), (m, 9));
    assert!(matches!(
        frame_from_reads(Ok((7, 12)), ok_frame.clone(), 13),
        Err(FrameError::UnknownId(7))
    ));
    assert!(matches!(
        frame_from_reads(
            Err((ReadFailure::EndedEarly, postcard::Error::DeserializeUnexpectedEnd)),
            ok_frame.clone(),
            13
        ),
        Err(FrameError::Incomplete)
    ));
    assert!(matches!(
        frame_from_reads(
            Err((ReadFailure::BadVarint, postcard::Error::DeserializeBadVarint)),
            ok_frame,
            13
        ),
        Err(FrameError::Postcard(ReadFailure::BadVarint, postcard::Error::DeserializeBadVarint))
    ));
    assert!(matches!(
        frame_from_reads(
            Ok((0, 12)),
            Err((ReadFailure::EndedEarly, postcard::Error::DeserializeUnexpectedEnd)),
            13
        ),
        Err(FrameError::Incomplete)
    ));
    assert!(matches!(
        frame_from_reads(
            Ok((0, 12)),
            Err((ReadFailure::BadChecksum, postcard::Error::DeserializeBadCrc)),
            13
        ),
        Err(FrameError::Postcard(ReadFailure::BadChecksum, postcard::Error::DeserializeBadCrc))
    ));
}

#[test]
fn decode_rejects_overlong_identifier_varint() {
    let bytes = [0x80u8, 0x80, 0x04, 0, 0, 0, 0, 0, 0, 0];
    assert!(matches!(
        decode_frame(&bytes),
        Err(FrameError::Postcard(ReadFailure::BadVarint, postcard::Error::DeserializeBadVarint))
    ));
    // A two-byte identifier varint that is not the shortest form still reads as 1.
    let mut payload = vec![0x81u8, 0x00, 5, 2, 4, 6];
    let crc = crc::Crc::<u32>::new(&crc::CRC_32_CKSUM);
    let c = crc.checksum(&payload);
    payload.extend_from_slice(&c.to_le_bytes());
    assert_eq!(decode_frame(&payload).unwrap(), (msg(5, 1, 2, 3), 10));
}
