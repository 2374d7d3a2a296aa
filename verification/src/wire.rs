use vstd::prelude::*;

use crate::acc_msg::{msg_from_wire, wire_fields, AccMsg};
use crate::message_id::{id_from_code, MessageId};

verus! {

/// Number of checksum bytes that close every frame.
pub const CRC_LEN: usize = 4;

/// The error type of the `postcard` crate, carried through unchanged.
#[verifier::external_type_specification]
#[verifier::external_body]
pub struct ExPostcardError(postcard::Error);

/// The frame that `postcard::to_slice_crc32` writes for five wire numbers:
/// their postcard encoding followed by the little-endian CRC-32/CKSUM of
/// that encoding.
pub uninterp spec fn postcard_frame_crc32(fields: (u16, u16, i16, i16, i16)) -> Seq<u8>;

/// How postcard failed to read, by the variant of `postcard::Error`.
#[derive(Debug, Clone, Copy, PartialEq, Eq, Structural)]
pub enum ReadFailure {
    /// `DeserializeUnexpectedEnd`: the input ended before the value (and
    /// checksum) was complete.
    EndedEarly,
    /// `DeserializeBadVarint`: a varint was longer than its type allows.
    BadVarint,
    /// `DeserializeBadCrc`: the checksum after the value did not match.
    BadChecksum,
    /// Any other `postcard::Error`.
    Other,
}

/// What `postcard::take_from_bytes_crc32` reads from the front of `bytes`
/// as five wire numbers: the numbers and the count of bytes it leaves
/// unread, or how it failed.
pub uninterp spec fn postcard_take_crc32(bytes: Seq<u8>) -> Result<((u16, u16, i16, i16, i16), nat), ReadFailure>;

/// Reading a `u16` varint from the front of `bytes`, as postcard does: seven
/// bits per byte, least significant first, a set top bit announcing another
/// byte, at most three bytes of which the last holds at most two bits. The
/// number and the count of bytes left unread, or how reading failed.
pub open spec fn varint_u16_read(bytes: Seq<u8>) -> Result<(u16, nat), ReadFailure> {
    if bytes.len() < 1 {
        Err(ReadFailure::EndedEarly)
    } else if bytes[0] < 0x80 {
        Ok((bytes[0] as u16, (bytes.len() - 1) as nat))
    } else if bytes.len() < 2 {
        Err(ReadFailure::EndedEarly)
    } else if bytes[1] < 0x80 {
        Ok(((bytes[0] - 0x80 + 0x80 * bytes[1]) as u16, (bytes.len() - 2) as nat))
    } else if bytes.len() < 3 {
        Err(ReadFailure::EndedEarly)
    } else if bytes[2] > 3 {
        Err(ReadFailure::BadVarint)
    } else {
        Ok(
            (
                (bytes[0] - 0x80 + 0x80 * (bytes[1] - 0x80) + 0x4000 * bytes[2]) as u16,
                (bytes.len() - 3) as nat,
            ),
        )
    }
}

/// Bytes that postcard's varint takes for `v`: seven bits per byte.
pub open spec fn varint_len(v: u16) -> nat {
    if v < 0x80 {
        1
    } else if v < 0x4000 {
        2
    } else {
        3
    }
}

/// Postcard's zigzag mapping of a signed number onto an unsigned one:
/// 0, -1, 1, -2, ... become 0, 1, 2, 3, ...
pub open spec fn zigzag(v: i16) -> u16 {
    if v >= 0 {
        (2 * v) as u16
    } else {
        (-2 * v - 1) as u16
    }
}

/// Length of the frame of five wire numbers: one varint each (the signed
/// ones zigzagged) and the checksum.
pub open spec fn frame_len(f: (u16, u16, i16, i16, i16)) -> nat {
    CRC_LEN as nat + varint_len(f.0) + varint_len(f.1) + varint_len(zigzag(f.2)) + varint_len(
        zigzag(f.3),
    ) + varint_len(zigzag(f.4))
}

/// A successful `u16` varint read took one to three bytes, every one but
/// the last with its top bit set, and the number is their low seven bits,
/// least significant first; a read that ends early had fewer than three
/// bytes, each with its top bit set.
pub proof fn lemma_varint_u16_read(bytes: Seq<u8>)
    ensures
        varint_u16_read(bytes) matches Ok((v, rem)) ==> {
            let k = bytes.len() - rem;
            &&& 1 <= k <= 3
            &&& bytes[k - 1] < 0x80
            &&& forall|i: int| 0 <= i < k - 1 ==> #[trigger] bytes[i] >= 0x80
            &&& v == (if k == 1 {
                bytes[0] as int
            } else if k == 2 {
                bytes[0] % 0x80 + 0x80 * (bytes[1] % 0x80)
            } else {
                bytes[0] % 0x80 + 0x80 * (bytes[1] % 0x80) + 0x4000 * (bytes[2] % 0x80)
            })
        },
        varint_u16_read(bytes) == Err::<(u16, nat), ReadFailure>(ReadFailure::EndedEarly) ==> bytes.len()
            < 3 && forall|i: int| 0 <= i < bytes.len() ==> #[trigger] bytes[i] >= 0x80,
        varint_u16_read(bytes) is Err ==> varint_u16_read(bytes) == Err::<(u16, nat), ReadFailure>(
            ReadFailure::EndedEarly,
        ) || varint_u16_read(bytes) == Err::<(u16, nat), ReadFailure>(ReadFailure::BadVarint),
{
}

/// The zigzag mapping sends a number that is not negative to twice itself
/// and a negative one to the odd number below twice its magnitude.
pub proof fn lemma_zigzag(v: i16)
    ensures
        v >= 0 ==> zigzag(v) == 2 * v,
        v < 0 ==> zigzag(v) == 2 * (-v) - 1,
{
}

/// A varint takes the fewest seven-bit bytes that hold the number.
pub proof fn lemma_varint_len(v: u16)
    ensures
        1 <= varint_len(v) <= 3,
        varint_len(v) == 1 <==> v < 0x80,
        varint_len(v) == 2 <==> 0x80 <= v < 0x4000,
        varint_len(v) == 3 <==> 0x4000 <= v,
{
}

/// Whether `bytes` and `frame` agree on every position both have: one of
/// them begins with the other.
pub open spec fn agrees(bytes: Seq<u8>, frame: Seq<u8>) -> bool {
    if bytes.len() <= frame.len() {
        frame.subrange(0, bytes.len() as int) == bytes
    } else {
        bytes.subrange(0, frame.len() as int) == frame
    }
}

/// Whether `bytes` begins with `frame`.
pub open spec fn starts_with(bytes: Seq<u8>, frame: Seq<u8>) -> bool {
    frame.len() <= bytes.len() && bytes.subrange(0, frame.len() as int) == frame
}

/// Serialises five wire numbers with `postcard::to_slice_crc32` into a
/// buffer of `capacity` bytes, checksummed with `crc::CRC_32_CKSUM`.
/// Claims: on success the bytes are the frame of `fields`, whose length is
/// one varint per number plus four checksum bytes; the call fails exactly
/// when that length exceeds `capacity`.
#[verifier::external_body]
fn postcard_to_frame(fields: (u16, u16, i16, i16, i16), capacity: usize) -> (r: Result<
    Vec<u8>,
    postcard::Error,
>)
    ensures
        match r {
            Ok(v) => v@ == postcard_frame_crc32(fields) && v@.len() == frame_len(fields)
                && frame_len(fields) <= capacity,
            Err(_) => frame_len(fields) > capacity,
        },
{
    let mut buf = vec![0u8; capacity];
    let crc = crc::Crc::<u32>::new(&crc::CRC_32_CKSUM);
    let used = postcard::to_slice_crc32(&fields, &mut buf, crc.digest())?;
    Ok(used.to_vec())
}

/// Reads one `u16` from the front of `bytes` with `postcard::take_from_bytes`
/// and returns it with the number of bytes left unread, or how postcard
/// failed together with its error.
/// The failure's kind is the variant of the error postcard returned.
/// Claims: the outcome is `varint_u16_read(bytes)`; and bytes that agree with the frame
/// `postcard::to_slice_crc32` writes for some numbers, whose first item is
/// the varint of the first number, give that number once they hold its
/// varint and end early before.
#[verifier::external_body]
fn postcard_take_id(bytes: &[u8]) -> (r: Result<(u16, usize), (ReadFailure, postcard::Error)>)
    ensures
        match r {
            Ok((c, rem)) => {
                &&& varint_u16_read(bytes@) == Ok::<(u16, nat), ReadFailure>((c, rem as nat))
                &&& forall|g| #[trigger]
                    agrees(bytes@, postcard_frame_crc32(g)) ==> bytes@.len() >= varint_len(g.0)
                        && c == g.0 && rem == bytes@.len() - varint_len(g.0)
            },
            Err((k, _)) => {
                &&& varint_u16_read(bytes@) == Err::<(u16, nat), ReadFailure>(k)
                &&& forall|g| #[trigger]
                    agrees(bytes@, postcard_frame_crc32(g)) ==> k == ReadFailure::EndedEarly
                        && bytes@.len() < varint_len(g.0)
            },
        },
{
    match postcard::take_from_bytes::<u16>(bytes) {
        Ok((c, rest)) => Ok((c, rest.len())),
        Err(e) => Err((match e {
            postcard::Error::DeserializeUnexpectedEnd => ReadFailure::EndedEarly,
            postcard::Error::DeserializeBadVarint => ReadFailure::BadVarint,
            postcard::Error::DeserializeBadCrc => ReadFailure::BadChecksum,
            _ => ReadFailure::Other,
        }, e)),
    }
}

/// Reads five wire numbers from the front of `bytes` with
/// `postcard::take_from_bytes_crc32`, checksum `crc::CRC_32_CKSUM`, and
/// returns them with the number of bytes left unread, or how postcard
/// failed together with its error.
/// The failure's kind is the variant of the error postcard returned.
/// Claims: the outcome is `postcard_take_crc32(bytes)`; a success reads
/// five varints of one to three bytes and the four checksum bytes, begins by
/// reading the first number as `varint_u16_read` does, and reads
/// the same from the bytes it took followed by anything else; the input
/// ends early only when it is shorter than the longest frame; and bytes that
/// agree with the frame `postcard::to_slice_crc32` writes for some numbers
/// are read back as those numbers when they hold the whole frame, and end
/// early otherwise.
#[verifier::external_body]
fn postcard_take_frame(bytes: &[u8]) -> (r: Result<((u16, u16, i16, i16, i16), usize), (ReadFailure, postcard::Error)>)
    ensures
        match r {
            Ok((f, rem)) => {
                &&& postcard_take_crc32(bytes@) == Ok::<((u16, u16, i16, i16, i16), nat), ReadFailure>((f, rem as nat))
                &&& 9 <= bytes@.len() - rem <= 19
                &&& varint_u16_read(bytes@) matches Ok((c, _)) && c == f.0
                &&& forall|tail: Seq<u8>| #[trigger]
                    postcard_take_crc32(bytes@.subrange(0, bytes@.len() - rem) + tail)
                        == Ok::<((u16, u16, i16, i16, i16), nat), ReadFailure>((f, tail.len()))
                &&& forall|g| #[trigger]
                    agrees(bytes@, postcard_frame_crc32(g)) ==> g == f && rem == bytes@.len()
                        - postcard_frame_crc32(g).len()
            },
            Err((k, _)) => {
                &&& postcard_take_crc32(bytes@) == Err::<((u16, u16, i16, i16, i16), nat), ReadFailure>(k)
                &&& k == ReadFailure::EndedEarly ==> bytes@.len() < 19
                &&& forall|g| #[trigger]
                    agrees(bytes@, postcard_frame_crc32(g)) ==> k == ReadFailure::EndedEarly
                        && bytes@.len() < postcard_frame_crc32(g).len()
            },
        },
{
    let crc = crc::Crc::<u32>::new(&crc::CRC_32_CKSUM);
    match postcard::take_from_bytes_crc32::<(u16, u16, i16, i16, i16)>(bytes, crc.digest()) {
        Ok((f, rest)) => Ok((f, rest.len())),
        Err(e) => Err((match e {
            postcard::Error::DeserializeUnexpectedEnd => ReadFailure::EndedEarly,
            postcard::Error::DeserializeBadVarint => ReadFailure::BadVarint,
            postcard::Error::DeserializeBadCrc => ReadFailure::BadChecksum,
            _ => ReadFailure::Other,
        }, e)),
    }
}

/// Why a frame could not be read or written.
#[derive(Debug)]
pub enum FrameError {
    /// The bytes end before a whole frame; more may complete it.
    Incomplete,
    /// Postcard refused the bytes: a bad varint or a checksum that does not
    /// match.
    Postcard(ReadFailure, postcard::Error),
    /// The frame did not fit the buffer it was written into.
    BufferTooSmall(postcard::Error),
    /// The frame's identifier code names no `MessageId`.
    UnknownId(u16),
}

/// The frame of a message.
pub open spec fn msg_frame(m: AccMsg) -> Seq<u8> {
    postcard_frame_crc32(wire_fields(m))
}

/// What can be read at the front of some bytes.
pub enum FrameRead {
    /// A message, whose frame takes the given number of bytes.
    Message(AccMsg, nat),
    /// The beginning of a frame that is not complete yet.
    Incomplete,
    /// Bytes that begin no frame.
    Unreadable,
}

/// What can be read at the front of `bytes`. The identifier is read first,
/// as postcard reads a message: an unknown identifier makes the bytes
/// unreadable whatever follows.
pub open spec fn decoded_frame(bytes: Seq<u8>) -> FrameRead {
    match varint_u16_read(bytes) {
        Err(k) => if k == ReadFailure::EndedEarly {
            FrameRead::Incomplete
        } else {
            FrameRead::Unreadable
        },
        Ok((c, _)) => if id_from_code(c) is None {
            FrameRead::Unreadable
        } else {
            match postcard_take_crc32(bytes) {
                Ok((f, rem)) => if 9 <= bytes.len() - rem && rem <= bytes.len() {
                    match msg_from_wire(f) {
                        Some(m) => FrameRead::Message(m, (bytes.len() - rem) as nat),
                        None => FrameRead::Unreadable,
                    }
                } else {
                    FrameRead::Unreadable
                },
                Err(k) => if k == ReadFailure::EndedEarly {
                    FrameRead::Incomplete
                } else {
                    FrameRead::Unreadable
                },
            }
        },
    }
}

/// Writes the frame of `m` into a buffer of `capacity` bytes and returns
/// the bytes written. Fails exactly when the frame is longer than
/// `capacity`.
pub fn encode_frame(m: &AccMsg, capacity: usize) -> (r: Result<Vec<u8>, FrameError>)
    ensures
        match r {
            Ok(v) => v@ == msg_frame(*m) && v@.len() == frame_len(wire_fields(*m)),
            Err(e) => e is BufferTooSmall,
        },
        r is Ok <==> frame_len(wire_fields(*m)) <= capacity,
{
    match postcard_to_frame(m.to_wire(), capacity) {
        Ok(v) => Ok(v),
        Err(e) => Err(FrameError::BufferTooSmall(e)),
    }
}

/// What postcard's two reads of the same bytes amount to, as
/// `frame_from_reads` decides it.
pub open spec fn reads_outcome(
    id_read: Result<(u16, usize), (ReadFailure, postcard::Error)>,
    frame_read: Result<((u16, u16, i16, i16, i16), usize), (ReadFailure, postcard::Error)>,
    len: usize,
) -> Result<(AccMsg, usize), FrameError> {
    match id_read {
        Err((k, e)) => if k == ReadFailure::EndedEarly {
            Err(FrameError::Incomplete)
        } else {
            Err(FrameError::Postcard(k, e))
        },
        Ok((c, _)) => if id_from_code(c) is None {
            Err(FrameError::UnknownId(c))
        } else {
            match frame_read {
                Ok((f, rem)) => match msg_from_wire(f) {
                    Some(m) => Ok((m, (len - rem) as usize)),
                    None => Err(FrameError::UnknownId(f.0)),
                },
                Err((k, e)) => if k == ReadFailure::EndedEarly {
                    Err(FrameError::Incomplete)
                } else {
                    Err(FrameError::Postcard(k, e))
                },
            }
        },
    }
}

/// How the two reads decide: an identifier read that ends early leaves the
/// bytes incomplete and any other failure of it is reported, whatever the
/// frame read; an identifier code above 1 is refused, whatever the frame
/// read; with code 0 or 1, a frame read of numbers whose first is 0 or 1
/// gives the message they spell with the bytes it used, an early end leaves
/// the bytes incomplete, and another failure is reported.
pub proof fn lemma_reads_outcome(
    id_read: Result<(u16, usize), (ReadFailure, postcard::Error)>,
    frame_read: Result<((u16, u16, i16, i16, i16), usize), (ReadFailure, postcard::Error)>,
    len: usize,
)
    ensures
        match id_read {
            Err((k, e)) => reads_outcome(id_read, frame_read, len) == (if k == ReadFailure::EndedEarly {
                Err::<(AccMsg, usize), FrameError>(FrameError::Incomplete)
            } else {
                Err::<(AccMsg, usize), FrameError>(FrameError::Postcard(k, e))
            }),
            Ok((c, _)) => if c > 1 {
                reads_outcome(id_read, frame_read, len) == Err::<(AccMsg, usize), FrameError>(
                    FrameError::UnknownId(c),
                )
            } else {
                match frame_read {
                    Ok((f, rem)) => f.0 <= 1 ==> reads_outcome(id_read, frame_read, len) == Ok::<
                        (AccMsg, usize),
                        FrameError,
                    >(
                        (
                            AccMsg {
                                id: if f.0 == 1 {
                                    MessageId::AccMsgId
                                } else {
                                    MessageId::UnknownId
                                },
                                counter: f.1,
                                acc_x: f.2,
                                acc_y: f.3,
                                acc_z: f.4,
                            },
                            (len - rem) as usize,
                        ),
                    ),
                    Err((k, e)) => reads_outcome(id_read, frame_read, len) == (if k
                        == ReadFailure::EndedEarly {
                        Err::<(AccMsg, usize), FrameError>(FrameError::Incomplete)
                    } else {
                        Err::<(AccMsg, usize), FrameError>(FrameError::Postcard(k, e))
                    }),
                }
            },
        },
{
}

/// Decides what `len` bytes hold from postcard's two reads of them: the
/// identifier alone (`id_read`) and then the whole frame (`frame_read`),
/// each a value and the count of bytes left unread, or a failure. The
/// identifier decides first: when it ends early the bytes are incomplete,
/// when it fails otherwise or names no `MessageId` the bytes are refused;
/// only then does the frame's read count. A read that ends early makes the
/// bytes incomplete rather than refused.
pub fn frame_from_reads(
    id_read: Result<(u16, usize), (ReadFailure, postcard::Error)>,
    frame_read: Result<((u16, u16, i16, i16, i16), usize), (ReadFailure, postcard::Error)>,
    len: usize,
) -> (r: Result<(AccMsg, usize), FrameError>)
    requires
        frame_read matches Ok((_, rem)) ==> rem <= len,
    ensures
        r == reads_outcome(id_read, frame_read, len),
{
    match id_read {
        Err((ReadFailure::EndedEarly, _)) => Err(FrameError::Incomplete),
        Err((k, e)) => Err(FrameError::Postcard(k, e)),
        Ok((c, _)) => {
            if MessageId::from_code(c).is_none() {
                return Err(FrameError::UnknownId(c));
            }
            match frame_read {
                Ok((f, rem)) => match AccMsg::from_wire(f) {
                    Some(m) => Ok((m, len - rem)),
                    None => Err(FrameError::UnknownId(f.0)),
                },
                Err((ReadFailure::EndedEarly, _)) => Err(FrameError::Incomplete),
                Err((k, e)) => Err(FrameError::Postcard(k, e)),
            }
        },
    }
}

/// Reads one message from the front of `bytes`; on success returns it with
/// the number of bytes its frame took. The identifier is read first: an
/// unknown one is refused whatever follows.
pub fn decode_frame(bytes: &[u8]) -> (r: Result<(AccMsg, usize), FrameError>)
    ensures
        match r {
            Ok((m, used)) => {
                &&& decoded_frame(bytes@) == FrameRead::Message(m, used as nat)
                &&& 9 <= used <= 19
                &&& used <= bytes@.len()
                &&& forall|tail: Seq<u8>| #[trigger]
                    decoded_frame(bytes@.subrange(0, used as int) + tail) == FrameRead::Message(m, used as nat)
            },
            Err(FrameError::Incomplete) => decoded_frame(bytes@) == FrameRead::Incomplete && bytes@.len() < 19,
            Err(FrameError::Postcard(k, _)) => {
                &&& decoded_frame(bytes@) == FrameRead::Unreadable
                &&& k != ReadFailure::EndedEarly
                &&& (varint_u16_read(bytes@) == Err::<(u16, nat), ReadFailure>(k)
                    || postcard_take_crc32(bytes@) == Err::<((u16, u16, i16, i16, i16), nat), ReadFailure>(k))
            },
            Err(FrameError::UnknownId(code)) => {
                &&& decoded_frame(bytes@) == FrameRead::Unreadable
                &&& varint_u16_read(bytes@) matches Ok((c, _))
                &&& c == code
                &&& id_from_code(code) is None
            },
            Err(FrameError::BufferTooSmall(_)) => false,
        },
        forall|m: AccMsg|
            #[trigger] starts_with(bytes@, msg_frame(m)) ==> (r matches Ok((m2, used)) && m2 == m
                && used == msg_frame(m).len()),
        forall|m: AccMsg|
            #[trigger] agrees(bytes@, msg_frame(m)) && bytes@.len() < msg_frame(m).len() ==> (r is Err
                && r->Err_0 is Incomplete),
        bytes@.len() == 0 ==> (r is Err && r->Err_0 is Incomplete),
{
    let whole = postcard_take_frame(bytes);
    let id = postcard_take_id(bytes);
    proof {
        assert forall|m: AccMsg| #[trigger] starts_with(bytes@, msg_frame(m)) implies agrees(
            bytes@,
            postcard_frame_crc32(wire_fields(m)),
        ) by {
            let fr = postcard_frame_crc32(wire_fields(m));
            assert(fr.subrange(0, fr.len() as int) =~= fr);
            assert(bytes@.subrange(0, bytes@.len() as int) =~= bytes@);
        }
        assert forall|m: AccMsg| #[trigger]
            agrees(bytes@, msg_frame(m)) implies agrees(bytes@, postcard_frame_crc32(wire_fields(m))) by {}
    }
    let r = frame_from_reads(id, whole, bytes.len());
    proof {
        if let Ok((m, used)) = r {
            let f = whole->Ok_0.0;
            assert forall|tail: Seq<u8>|
                #[trigger] decoded_frame(bytes@.subrange(0, used as int) + tail)
                    == FrameRead::Message(m, used as nat) by {
                let p = bytes@.subrange(0, used as int) + tail;
                assert(p[0] == bytes@[0] && p[1] == bytes@[1] && p[2] == bytes@[2]);
                assert(postcard_take_crc32(p) == Ok::<((u16, u16, i16, i16, i16), nat), ReadFailure>((f, tail.len())));
                assert(varint_u16_read(p) matches Ok((c, _)) && c == f.0);
            }
        }
    }
    r
}

} // verus!
