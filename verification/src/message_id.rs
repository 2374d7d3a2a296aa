use vstd::prelude::*;

verus! {

/// Identifies the kind of a message on the wire. It travels as an unsigned
/// 16-bit number.
#[derive(Debug, Clone, Copy, PartialEq, Eq, Structural)]
pub enum MessageId {
    UnknownId,
    AccMsgId,
}

/// The number that stands for `id` on the wire.
pub open spec fn id_code(id: MessageId) -> u16 {
    match id {
        MessageId::UnknownId => 0x0000,
        MessageId::AccMsgId => 0x0001,
    }
}

/// The identifier a wire number stands for, if any.
pub open spec fn id_from_code(code: u16) -> Option<MessageId> {
    if code == 0x0000 {
        Some(MessageId::UnknownId)
    } else if code == 0x0001 {
        Some(MessageId::AccMsgId)
    } else {
        None
    }
}

impl MessageId {
    /// The wire number of this identifier.
    pub fn code(self) -> (c: u16)
        ensures
            c == id_code(self),
            self == MessageId::UnknownId ==> c == 0,
            self == MessageId::AccMsgId ==> c == 1,
    {
        match self {
            MessageId::UnknownId => 0x0000,
            MessageId::AccMsgId => 0x0001,
        }
    }

    /// The identifier for a wire number; `None` for a number that names no
    /// identifier.
    pub fn from_code(code: u16) -> (id: Option<MessageId>)
        ensures
            id == id_from_code(code),
            code == 0 ==> id == Some(MessageId::UnknownId),
            code == 1 ==> id == Some(MessageId::AccMsgId),
            code > 1 ==> id is None,
    {
        if code == 0x0000 {
            Some(MessageId::UnknownId)
        } else if code == 0x0001 {
            Some(MessageId::AccMsgId)
        } else {
            None
        }
    }
}

impl Default for MessageId {
    fn default() -> (id: MessageId)
        ensures
            id == MessageId::UnknownId,
    {
        MessageId::UnknownId
    }
}

/// The wire numbers of the identifiers: 0 for `UnknownId`, 1 for
/// `AccMsgId`; every other number names none.
pub proof fn lemma_id_codes(code: u16)
    ensures
        id_code(MessageId::UnknownId) == 0,
        id_code(MessageId::AccMsgId) == 1,
        code > 1 ==> id_from_code(code) is None,
{
}

/// Every identifier is read back from its own wire number.
pub proof fn lemma_id_code_roundtrip(id: MessageId)
    ensures
        id_from_code(id_code(id)) == Some(id),
{
}

/// A wire number that names an identifier is that identifier's number.
pub proof fn lemma_id_from_code_inverse(code: u16)
    ensures
        id_from_code(code) matches Some(id) ==> id_code(id) == code,
{
}

} // verus!
