use shared::acc_msg::{AccMsg, Message};
use shared::message_id::MessageId;

fn line(m: &AccMsg) -> String {
    String::from_utf8(m.fields_line()).unwrap()
}

#[test]
fn message_id_codes() {
    assert_eq!(MessageId::UnknownId.code(), 0x0000);
    assert_eq!(MessageId::AccMsgId.code(), 0x0001);
    assert_eq!(MessageId::from_code(0), Some(MessageId::UnknownId));
    assert_eq!(MessageId::from_code(1), Some(MessageId::AccMsgId));
    assert_eq!(MessageId::from_code(2), None);
    assert_eq!(MessageId::from_code(0xFFFF), None);
    assert_eq!(MessageId::default(), MessageId::UnknownId);
}

#[test]
fn message_id_code_roundtrip() {
    for id in [MessageId::UnknownId, MessageId::AccMsgId] {
        assert_eq!(MessageId::from_code(id.code()), Some(id));
    }
}

#[test]
fn acc_msg_new_and_default() {
    let m = AccMsg::new();
    assert_eq!(m.id, MessageId::AccMsgId);
    assert_eq!((m.counter, m.acc_x, m.acc_y, m.acc_z), (0, 0, 0, 0));
    let d = AccMsg::default();
    assert_eq!(d.id, MessageId::UnknownId);
    assert_eq!((d.counter, d.acc_x, d.acc_y, d.acc_z), (0, 0, 0, 0));
}

#[test]
fn acc_msg_wire_numbers() {
    let m = AccMsg { id: MessageId::AccMsgId, counter: 7, acc_x: -1, acc_y: 2, acc_z: -3 };
    assert_eq!(m.to_wire(), (1, 7, -1, 2, -3));
    assert_eq!(AccMsg::from_wire((1, 7, -1, 2, -3)), Some(m));
    assert_eq!(AccMsg::from_wire((9, 7, -1, 2, -3)), None);
    let z = AccMsg::from_wire((0, 0, 0, 0, 0)).unwrap();
    assert_eq!(z, AccMsg::default());
}

#[test]
fn fields_line_of_new_message() {
    assert_eq!(line(&AccMsg::new()), "id: 0001 counter: 0000 Ax: 0 Ay: 0 Az: 0");
}

#[test]
fn fields_line_hex_and_decimal() {
    let m = AccMsg { id: MessageId::AccMsgId, counter: 0x1A2B, acc_x: -5, acc_y: 1234, acc_z: 32767 };
    assert_eq!(line(&m), "id: 0001 counter: 1A2B Ax: -5 Ay: 1234 Az: 32767");
    let m = AccMsg { id: MessageId::UnknownId, counter: 0xFFFF, acc_x: -32768, acc_y: 10, acc_z: -10 };
    assert_eq!(line(&m), "id: 0000 counter: FFFF Ax: -32768 Ay: 10 Az: -10");
}

#[test]
fn fields_line_matches_std_formatting() {
    let samples: [i16; 7] = [0, 9, -9, 100, -1000, i16::MAX, i16::MIN];
    for (i, v) in samples.iter().enumerate() {
        let m = AccMsg { id: MessageId::AccMsgId, counter: (i as u16) * 4099, acc_x: *v, acc_y: -*v / 2, acc_z: *v / 3 };
        let expected = format!(
            "id: {:04X} counter: {:04X} Ax: {:.32} Ay: {:.32} Az: {:.32}",
            m.id.code(),
            m.counter,
            m.acc_x,
            m.acc_y,
            m.acc_z
        );
        assert_eq!(line(&m), expected);
    }
}
