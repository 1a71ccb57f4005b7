//! The kinds of command that a packet can carry.

use vstd::prelude::*;
use crate::error::DecodeError;

verus! {

/// The kind of a command; it fixes the shape of its header and payload.
#[derive(Debug, Clone, Copy, PartialEq, Eq, Structural)]
pub enum CommandType {
    Nothing,
    Ack,
    Connect,
    VerifyConnect,
    Disconnect,
    Ping,
    Reliable,
    Unreliable,
    Fragmented,
    ServerTime,
}

impl CommandType {
    /// The byte that stands for this kind on the wire.
    pub open spec fn spec_code(self) -> u8 {
        match self {
            CommandType::Nothing => 0,
            CommandType::Ack => 1,
            CommandType::Connect => 2,
            CommandType::VerifyConnect => 3,
            CommandType::Disconnect => 4,
            CommandType::Ping => 5,
            CommandType::Reliable => 6,
            CommandType::Unreliable => 7,
            CommandType::Fragmented => 8,
            CommandType::ServerTime => 12,
        }
    }

    /// The kind that a wire byte stands for, if it stands for one.
    pub open spec fn spec_from_code(val: u8) -> Option<CommandType> {
        match val {
            0 => Some(CommandType::Nothing),
            1 => Some(CommandType::Ack),
            2 => Some(CommandType::Connect),
            3 => Some(CommandType::VerifyConnect),
            4 => Some(CommandType::Disconnect),
            5 => Some(CommandType::Ping),
            6 => Some(CommandType::Reliable),
            7 => Some(CommandType::Unreliable),
            8 => Some(CommandType::Fragmented),
            12 => Some(CommandType::ServerTime),
            _ => None,
        }
    }

    /// Decodes a wire byte; a byte outside the ten codes is an error that
    /// carries the byte.
    pub fn from_u8(val: u8) -> (r: Result<CommandType, DecodeError>)
        ensures
            r == match Self::spec_from_code(val) {
                Some(t) => Ok::<CommandType, DecodeError>(t),
                None => Err::<CommandType, DecodeError>(DecodeError::UnknownTag(val)),
            },
    {
        match val {
            0 => Ok(CommandType::Nothing),
            1 => Ok(CommandType::Ack),
            2 => Ok(CommandType::Connect),
            3 => Ok(CommandType::VerifyConnect),
            4 => Ok(CommandType::Disconnect),
            5 => Ok(CommandType::Ping),
            6 => Ok(CommandType::Reliable),
            7 => Ok(CommandType::Unreliable),
            8 => Ok(CommandType::Fragmented),
            12 => Ok(CommandType::ServerTime),
            _ => Err(DecodeError::UnknownTag(val)),
        }
    }

    /// The wire byte of this kind.
    pub fn to_u8(self) -> (r: u8)
        ensures
            r == self.spec_code(),
    {
        match self {
            CommandType::Nothing => 0,
            CommandType::Ack => 1,
            CommandType::Connect => 2,
            CommandType::VerifyConnect => 3,
            CommandType::Disconnect => 4,
            CommandType::Ping => 5,
            CommandType::Reliable => 6,
            CommandType::Unreliable => 7,
            CommandType::Fragmented => 8,
            CommandType::ServerTime => 12,
        }
    }

    /// Every kind is recovered from its own wire byte.
    pub proof fn lemma_code_round_trip(self)
        ensures
            Self::spec_from_code(self.spec_code()) == Some(self),
    {
    }

    /// A byte that decodes to a kind is that kind's wire byte.
    pub proof fn lemma_from_code_inverse(val: u8)
        ensures
            Self::spec_from_code(val) matches Some(t) ==> t.spec_code() == val,
    {
    }
}

impl Default for CommandType {
    fn default() -> (r: Self)
        ensures
            r == CommandType::Nothing,
    {
        CommandType::Nothing
    }
}


impl From<CommandType> for u8 {
    fn from(value: CommandType) -> (r: u8) {
        value.to_u8()
    }
}

impl vstd::std_specs::convert::FromSpecImpl<CommandType> for u8 {
    open spec fn obeys_from_spec() -> bool {
        true
    }

    open spec fn from_spec(value: CommandType) -> u8 {
        value.spec_code()
    }
}

} // verus!
