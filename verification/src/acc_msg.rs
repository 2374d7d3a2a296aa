use vstd::prelude::*;

use crate::message_id::{id_code, id_from_code, MessageId};

verus! {

/// Size in bytes of an `AccMsg` laid out in memory: five 16-bit fields.
pub const ACC_MSG_SIZE: usize = 10;

/// One accelerometer sample together with its identifier and a sequence
/// counter.
#[derive(Debug, Clone, Copy, PartialEq, Eq, Structural)]
pub struct AccMsg {
    pub id: MessageId,
    pub counter: u16,
    pub acc_x: i16,
    pub acc_y: i16,
    pub acc_z: i16,
}

/// The five numbers that carry a message on the wire, in wire order:
/// identifier code, counter, then the three axes.
pub open spec fn wire_fields(m: AccMsg) -> (u16, u16, i16, i16, i16) {
    (id_code(m.id), m.counter, m.acc_x, m.acc_y, m.acc_z)
}

/// The message that five wire numbers describe; `None` when the identifier
/// code names no identifier.
pub open spec fn msg_from_wire(f: (u16, u16, i16, i16, i16)) -> Option<AccMsg> {
    match id_from_code(f.0) {
        Some(id) => Some(AccMsg { id, counter: f.1, acc_x: f.2, acc_y: f.3, acc_z: f.4 }),
        None => None,
    }
}

impl AccMsg {
    /// The fresh accelerometer message: identifier `AccMsgId`, counter and
    /// axes zero.
    pub open spec fn spec_new() -> AccMsg {
        AccMsg { id: MessageId::AccMsgId, counter: 0, acc_x: 0, acc_y: 0, acc_z: 0 }
    }

    /// A fresh accelerometer message: identifier `AccMsgId`, counter and
    /// axes zero.
    pub fn new() -> (m: AccMsg)
        ensures
            m == (AccMsg {
                id: MessageId::AccMsgId,
                counter: 0,
                acc_x: 0,
                acc_y: 0,
                acc_z: 0,
            }),
    {
        AccMsg { id: MessageId::AccMsgId, counter: 0, acc_x: 0, acc_y: 0, acc_z: 0 }
    }

    /// The wire numbers of this message.
    pub fn to_wire(&self) -> (f: (u16, u16, i16, i16, i16))
        ensures
            f == wire_fields(*self),
            f.0 == (if self.id == MessageId::AccMsgId {
                1u16
            } else {
                0u16
            }),
            f.1 == self.counter,
            f.2 == self.acc_x,
            f.3 == self.acc_y,
            f.4 == self.acc_z,
    {
        (self.id.code(), self.counter, self.acc_x, self.acc_y, self.acc_z)
    }

    /// The message described by five wire numbers, or `None` when the
    /// identifier code is not one of `MessageId`'s.
    pub fn from_wire(f: (u16, u16, i16, i16, i16)) -> (m: Option<AccMsg>)
        ensures
            m == msg_from_wire(f),
            f.0 > 1 ==> m is None,
            f.0 <= 1 ==> m == Some(
                AccMsg {
                    id: if f.0 == 1 {
                        MessageId::AccMsgId
                    } else {
                        MessageId::UnknownId
                    },
                    counter: f.1,
                    acc_x: f.2,
                    acc_y: f.3,
                    acc_z: f.4,
                },
            ),
    {
        match MessageId::from_code(f.0) {
            Some(id) => Some(AccMsg { id, counter: f.1, acc_x: f.2, acc_y: f.3, acc_z: f.4 }),
            None => None,
        }
    }
}

impl Default for AccMsg {
    fn default() -> (m: AccMsg)
        ensures
            m == (AccMsg {
                id: MessageId::UnknownId,
                counter: 0,
                acc_x: 0,
                acc_y: 0,
                acc_z: 0,
            }),
    {
        AccMsg { id: MessageId::UnknownId, counter: 0, acc_x: 0, acc_y: 0, acc_z: 0 }
    }
}

/// Every message is read back from its own wire numbers.
pub proof fn lemma_wire_fields_roundtrip(m: AccMsg)
    ensures
        msg_from_wire(wire_fields(m)) == Some(m),
{
}

/// Wire numbers that describe a message are that message's wire numbers.
pub proof fn lemma_msg_from_wire_inverse(f: (u16, u16, i16, i16, i16))
    ensures
        msg_from_wire(f) matches Some(m) ==> wire_fields(m) == f,
{
}

// ---------------------------------------------------------------------------
// Text rendering of a message (ASCII bytes).
// ---------------------------------------------------------------------------

/// The ASCII character for a hexadecimal digit, upper case.
pub open spec fn hex_digit(d: int) -> u8 {
    if d < 10 {
        (48 + d) as u8
    } else {
        (55 + d) as u8
    }
}

/// The upper-case hexadecimal digits `0123456789ABCDEF` as ASCII bytes.
pub open spec fn hex_alphabet() -> Seq<u8> {
    seq![48u8, 49, 50, 51, 52, 53, 54, 55, 56, 57, 65, 66, 67, 68, 69, 70]
}

/// The value of an upper-case ASCII hexadecimal digit, or -1 for any other
/// byte.
pub open spec fn hex_value(c: u8) -> int {
    if 48 <= c <= 57 {
        c - 48
    } else if 65 <= c <= 70 {
        c - 55
    } else {
        -1
    }
}

/// The value of ASCII decimal digits, most significant first.
pub open spec fn digits_value(s: Seq<u8>) -> int
    decreases s.len(),
{
    if s.len() == 0 {
        0
    } else {
        digits_value(s.drop_last()) * 10 + (s.last() - 48)
    }
}

/// Whether every byte of `s` is an ASCII decimal digit.
pub open spec fn all_decimal(s: Seq<u8>) -> bool {
    forall|i: int| 0 <= i < s.len() ==> 48 <= #[trigger] s[i] <= 57
}

/// `v` as exactly four upper-case hexadecimal digits.
pub open spec fn hex4(v: u16) -> Seq<u8> {
    seq![
        hex_digit(v as int / 4096),
        hex_digit((v as int / 256) % 16),
        hex_digit((v as int / 16) % 16),
        hex_digit(v as int % 16),
    ]
}

/// The decimal digits of `n`, most significant first, with no leading zero.
pub open spec fn decimal_digits(n: nat) -> Seq<u8>
    decreases n,
{
    if n < 10 {
        seq![(48 + n) as u8]
    } else {
        decimal_digits(n / 10).push((48 + n % 10) as u8)
    }
}

/// `v` in decimal, with a leading `-` when negative.
pub open spec fn decimal_i16(v: i16) -> Seq<u8> {
    if v < 0 {
        seq![45u8] + decimal_digits((-v) as nat)
    } else {
        decimal_digits(v as nat)
    }
}

/// Each hexadecimal digit is the standard upper-case one: digit `d` is the
/// `d`-th byte of `0123456789ABCDEF`, and reads back as `d`.
pub proof fn lemma_hex_digit(d: int)
    requires
        0 <= d < 16,
    ensures
        hex_digit(d) == hex_alphabet()[d],
        hex_value(hex_digit(d)) == d,
{
}

/// Four hexadecimal digits of `v` are upper-case digits that read back, most
/// significant first, as `v`.
pub proof fn lemma_hex4(v: u16)
    ensures
        hex4(v).len() == 4,
        forall|i: int| 0 <= i < 4 ==> hex_alphabet().contains(#[trigger] hex4(v)[i]),
        hex_value(hex4(v)[0]) * 4096 + hex_value(hex4(v)[1]) * 256 + hex_value(hex4(v)[2]) * 16
            + hex_value(hex4(v)[3]) == v,
{
    let a = v as int / 4096;
    let b = (v as int / 256) % 16;
    let c = (v as int / 16) % 16;
    let e = v as int % 16;
    lemma_hex_digit(a);
    lemma_hex_digit(b);
    lemma_hex_digit(c);
    lemma_hex_digit(e);
    assert forall|i: int| 0 <= i < 4 implies hex_alphabet().contains(#[trigger] hex4(v)[i]) by {
        let d = if i == 0 { a } else if i == 1 { b } else if i == 2 { c } else { e };
        assert(hex4(v)[i] == hex_alphabet()[d]);
    }
    assert(a * 4096 + b * 256 + c * 16 + e == v) by (nonlinear_arith)
        requires
            0 <= v < 0x10000,
            a == v as int / 4096,
            b == (v as int / 256) % 16,
            c == (v as int / 16) % 16,
            e == v as int % 16,
    ;
}

/// The decimal digits of `n` are ASCII digits, without a leading zero
/// unless `n` is zero, and read back as `n`.
pub proof fn lemma_decimal_digits(n: nat)
    ensures
        decimal_digits(n).len() >= 1,
        all_decimal(decimal_digits(n)),
        n >= 10 ==> decimal_digits(n)[0] != 48,
        digits_value(decimal_digits(n)) == n,
    decreases n,
{
    if n >= 10 {
        lemma_decimal_digits(n / 10);
        let s = decimal_digits(n);
        assert(s.drop_last() =~= decimal_digits(n / 10));
        assert(s[0] == decimal_digits(n / 10)[0]);
        assert(s.last() == 48 + n % 10);
        assert((n / 10) * 10 + n % 10 == n) by (nonlinear_arith);
        assert(digits_value(s) == digits_value(s.drop_last()) * 10 + (s.last() - 48));
        if n / 10 < 10 {
            assert(decimal_digits(n / 10)[0] == 48 + n / 10);
        }
    } else {
        let s = decimal_digits(n);
        assert(s.drop_last() =~= Seq::<u8>::empty());
        assert(digits_value(s.drop_last()) == 0);
        assert(digits_value(s) == digits_value(s.drop_last()) * 10 + (s.last() - 48));
    }
}

/// A number in decimal is its digits, after a `-` exactly when it is
/// negative, and they read back as its magnitude.
pub proof fn lemma_decimal_i16(v: i16)
    ensures
        v < 0 ==> decimal_i16(v)[0] == 45 && digits_value(decimal_i16(v).drop_first()) == -v
            && all_decimal(decimal_i16(v).drop_first()),
        v >= 0 ==> digits_value(decimal_i16(v)) == v && all_decimal(decimal_i16(v)),
{
    if v < 0 {
        lemma_decimal_digits((-v) as nat);
        assert(decimal_i16(v).drop_first() =~= decimal_digits((-v) as nat));
    } else {
        lemma_decimal_digits(v as nat);
    }
}

/// The text `id: `.
pub open spec fn label_id() -> Seq<u8> {
    seq![105u8, 100, 58, 32]
}

/// The text ` counter: `.
pub open spec fn label_counter() -> Seq<u8> {
    seq![32u8, 99, 111, 117, 110, 116, 101, 114, 58, 32]
}

/// The text ` Ax: `, ` Ay: ` or ` Az: `, for the axis letter given.
pub open spec fn label_axis(axis: u8) -> Seq<u8> {
    seq![32u8, 65, axis, 58, 32]
}

/// The one-line description of a message:
/// `id: IIII counter: CCCC Ax: X Ay: Y Az: Z`, identifier and counter in
/// four hexadecimal digits, the axes in decimal.
pub open spec fn fields_text(m: AccMsg) -> Seq<u8> {
    label_id() + hex4(id_code(m.id)) + label_counter() + hex4(m.counter) + label_axis(120)
        + decimal_i16(m.acc_x) + label_axis(121) + decimal_i16(m.acc_y) + label_axis(122)
        + decimal_i16(m.acc_z)
}

/// The line of a message, spelled out: `id: `, the identifier's code in four
/// hexadecimal digits, ` counter: `, the counter in four hexadecimal
/// digits, then ` Ax: `, ` Ay: ` and ` Az: ` each followed by that axis in
/// decimal.
pub proof fn lemma_fields_text(m: AccMsg)
    ensures
        fields_text(m) == seq![105u8, 100u8, 58u8, 32u8] + hex4(id_code(m.id)) + seq![
            32u8,
            99u8,
            111u8,
            117u8,
            110u8,
            116u8,
            101u8,
            114u8,
            58u8,
            32u8,
        ] + hex4(m.counter) + seq![32u8, 65u8, 120u8, 58u8, 32u8] + decimal_i16(m.acc_x) + seq![
            32u8,
            65u8,
            121u8,
            58u8,
            32u8,
        ] + decimal_i16(m.acc_y) + seq![32u8, 65u8, 122u8, 58u8, 32u8] + decimal_i16(m.acc_z),
{
    assert(label_id() =~= seq![105u8, 100u8, 58u8, 32u8]);
    assert(label_counter() =~= seq![32u8, 99u8, 111u8, 117u8, 110u8, 116u8, 101u8, 114u8, 58u8, 32u8]);
    assert(label_axis(120) =~= seq![32u8, 65u8, 120u8, 58u8, 32u8]);
    assert(label_axis(121) =~= seq![32u8, 65u8, 121u8, 58u8, 32u8]);
    assert(label_axis(122) =~= seq![32u8, 65u8, 122u8, 58u8, 32u8]);
}

/// Something that can describe its fields in one line of text.
pub trait Message {
    /// The line that describes `self`.
    spec fn spec_fields_line(&self) -> Seq<u8>;

    /// The line that describes `self`, as ASCII bytes.
    fn fields_line(&self) -> (line: Vec<u8>)
        ensures
            line@ == self.spec_fields_line(),
    ;
}

fn push_all(out: &mut Vec<u8>, bytes: &[u8])
    ensures
        final(out)@ == old(out)@ + bytes@,
{
    let mut i: usize = 0;
    while i < bytes.len()
        invariant
            i <= bytes@.len(),
            out@ == old(out)@ + bytes@.subrange(0, i as int),
        decreases bytes@.len() - i,
    {
        out.push(bytes[i]);
        i = i + 1;
        assert(out@ =~= old(out)@ + bytes@.subrange(0, i as int));
    }
    assert(bytes@.subrange(0, i as int) =~= bytes@);
}

fn hex_char(d: u16) -> (c: u8)
    requires
        d < 16,
    ensures
        c == hex_digit(d as int),
        c == hex_alphabet()[d as int],
{
    if d < 10 {
        48 + d as u8
    } else {
        55 + d as u8
    }
}

fn push_hex4(out: &mut Vec<u8>, v: u16)
    ensures
        final(out)@ == old(out)@ + hex4(v),
{
    out.push(hex_char(v / 4096));
    out.push(hex_char((v / 256) % 16));
    out.push(hex_char((v / 16) % 16));
    out.push(hex_char(v % 16));
    assert(out@ =~= old(out)@ + hex4(v));
}

fn push_decimal(out: &mut Vec<u8>, n: u16)
    ensures
        final(out)@ == old(out)@ + decimal_digits(n as nat),
    decreases n,
{
    if n >= 10 {
        push_decimal(out, n / 10);
    }
    out.push(48 + (n % 10) as u8);
    assert(out@ =~= old(out)@ + decimal_digits(n as nat));
}

fn push_i16(out: &mut Vec<u8>, v: i16)
    ensures
        final(out)@ == old(out)@ + decimal_i16(v),
{
    if v < 0 {
        out.push(45);
        let magnitude: u16 = (0 - (v as i32)) as u16;
        push_decimal(out, magnitude);
        assert(out@ =~= old(out)@ + decimal_i16(v));
    } else {
        push_decimal(out, v as u16);
    }
}

impl Message for AccMsg {
    open spec fn spec_fields_line(&self) -> Seq<u8> {
        fields_text(*self)
    }

    /// Besides being `fields_text`, the line begins `id: `, then the
    /// identifier's code in four upper-case hexadecimal digits, then
    /// ` counter: ` and the counter in four such digits.
    fn fields_line(&self) -> (line: Vec<u8>)
        ensures
            line@.len() >= 22,
            line@.subrange(0, 4) == seq![105u8, 100u8, 58u8, 32u8],
            line@.subrange(8, 18) == seq![32u8, 99u8, 111u8, 117u8, 110u8, 116u8, 101u8, 114u8, 58u8, 32u8],
            forall|i: int|
                (4 <= i < 8 || 18 <= i < 22) ==> hex_alphabet().contains(#[trigger] line@[i]),
            hex_value(line@[4]) * 4096 + hex_value(line@[5]) * 256 + hex_value(line@[6]) * 16
                + hex_value(line@[7]) == (if self.id == MessageId::AccMsgId {
                1int
            } else {
                0int
            }),
            hex_value(line@[18]) * 4096 + hex_value(line@[19]) * 256 + hex_value(line@[20]) * 16
                + hex_value(line@[21]) == self.counter,
    {
        let mut out: Vec<u8> = Vec::new();
        push_all(&mut out, &[105u8, 100, 58, 32]);
        push_hex4(&mut out, self.id.code());
        push_all(&mut out, &[32u8, 99, 111, 117, 110, 116, 101, 114, 58, 32]);
        push_hex4(&mut out, self.counter);
        push_all(&mut out, &[32u8, 65, 120, 58, 32]);
        push_i16(&mut out, self.acc_x);
        push_all(&mut out, &[32u8, 65, 121, 58, 32]);
        push_i16(&mut out, self.acc_y);
        push_all(&mut out, &[32u8, 65, 122, 58, 32]);
        push_i16(&mut out, self.acc_z);
        assert(out@ =~= fields_text(*self));
        proof {
            lemma_hex4(id_code(self.id));
            lemma_hex4(self.counter);
            let t = out@;
            assert(t.subrange(0, 4) =~= seq![105u8, 100u8, 58u8, 32u8]);
            assert(t.subrange(8, 18) =~= seq![32u8, 99u8, 111u8, 117u8, 110u8, 116u8, 101u8, 114u8, 58u8, 32u8]);
            assert forall|i: int| 4 <= i < 8 implies t[i] == hex4(id_code(self.id))[i - 4] by {}
            assert forall|i: int| 18 <= i < 22 implies t[i] == hex4(self.counter)[i - 18] by {}
            assert forall|i: int| (4 <= i < 8 || 18 <= i < 22) implies hex_alphabet().contains(
                #[trigger] t[i],
            ) by {
                if i < 8 {
                    assert(hex_alphabet().contains(hex4(id_code(self.id))[i - 4]));
                } else {
                    assert(hex_alphabet().contains(hex4(self.counter)[i - 18]));
                }
            }
        }
        out
    }
}

} // verus!
