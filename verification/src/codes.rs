//! The one-byte codes of the inner protocol: message types, value tags and
//! the codes used while a session is set up.

use vstd::prelude::*;

verus! {

/// Codes exchanged while a session is set up. Several share a wire byte:
/// they are told apart by where they occur.
#[derive(Debug, Clone, Copy, PartialEq, Eq, Structural)]
pub enum PhotonCode {
    ClientKey,
    ModeKey,
    ServerKey,
    InitEncryption,
    Ping,
    Okay,
}

impl PhotonCode {
    /// The wire byte of this code.
    pub open spec fn spec_code(self) -> u8 {
        match self {
            PhotonCode::ClientKey => 1,
            PhotonCode::ModeKey => 2,
            PhotonCode::ServerKey => 1,
            PhotonCode::InitEncryption => 0,
            PhotonCode::Ping => 1,
            PhotonCode::Okay => 0,
        }
    }

    /// The wire byte of this code.
    pub fn to_u8(self) -> (r: u8)
        ensures
            r == self.spec_code(),
    {
        match self {
            PhotonCode::ClientKey => 1,
            PhotonCode::ModeKey => 2,
            PhotonCode::ServerKey => 1,
            PhotonCode::InitEncryption => 0,
            PhotonCode::Ping => 1,
            PhotonCode::Okay => 0,
        }
    }
}

/// The type of an inner-protocol message, named by the byte after the
/// envelope marker.
#[derive(Debug, Clone, Copy, PartialEq, Eq, Structural)]
pub enum MessageType {
    Init,
    InitResponse,
    Operation,
    OperationResponse,
    Event,
    InternalOperationRequest,
    InternalOperationResponse,
    Message,
    RawMessage,
    /// A byte that names no message type, kept as it was read.
    Unknown(u8),
}

impl MessageType {
    /// The message type that a byte names.
    pub open spec fn spec_from_code(value: u8) -> MessageType {
        match value {
            0 => MessageType::Init,
            1 => MessageType::InitResponse,
            2 => MessageType::Operation,
            3 => MessageType::OperationResponse,
            4 => MessageType::Event,
            6 => MessageType::InternalOperationRequest,
            7 => MessageType::InternalOperationResponse,
            8 => MessageType::Message,
            9 => MessageType::RawMessage,
            _ => MessageType::Unknown(value),
        }
    }

    /// The byte that names this message type.
    pub open spec fn spec_code(self) -> u8 {
        match self {
            MessageType::Init => 0,
            MessageType::InitResponse => 1,
            MessageType::Operation => 2,
            MessageType::OperationResponse => 3,
            MessageType::Event => 4,
            MessageType::InternalOperationRequest => 6,
            MessageType::InternalOperationResponse => 7,
            MessageType::Message => 8,
            MessageType::RawMessage => 9,
            MessageType::Unknown(v) => v,
        }
    }

    /// Decodes a message-type byte; a byte outside the nine codes is kept
    /// in `Unknown`.
    pub fn from_u8(value: u8) -> (r: MessageType)
        ensures
            r == Self::spec_from_code(value),
    {
        match value {
            0 => MessageType::Init,
            1 => MessageType::InitResponse,
            2 => MessageType::Operation,
            3 => MessageType::OperationResponse,
            4 => MessageType::Event,
            6 => MessageType::InternalOperationRequest,
            7 => MessageType::InternalOperationResponse,
            8 => MessageType::Message,
            9 => MessageType::RawMessage,
            _ => MessageType::Unknown(value),
        }
    }

    /// The byte that names this message type.
    pub fn to_u8(self) -> (r: u8)
        ensures
            r == self.spec_code(),
    {
        match self {
            MessageType::Init => 0,
            MessageType::InitResponse => 1,
            MessageType::Operation => 2,
            MessageType::OperationResponse => 3,
            MessageType::Event => 4,
            MessageType::InternalOperationRequest => 6,
            MessageType::InternalOperationResponse => 7,
            MessageType::Message => 8,
            MessageType::RawMessage => 9,
            MessageType::Unknown(v) => v,
        }
    }

    /// Every message type but `Unknown` is recovered from its own byte.
    pub proof fn lemma_code_round_trip(self)
        requires
            !(self is Unknown),
        ensures
            Self::spec_from_code(self.spec_code()) == self,
    {
    }

    /// Every byte is recovered from the message type it decodes to.
    pub proof fn lemma_byte_round_trip(value: u8)
        ensures
            Self::spec_from_code(value).spec_code() == value,
    {
    }
}

/// The tag that precedes every encoded value and names its type.
#[derive(Debug, Clone, Copy, PartialEq, Eq, Structural)]
pub enum GpType {
    Array,
    Boolean,
    Byte,
    ByteArray,
    ObjectArray,
    Short,
    Float,
    Dictionary,
    Double,
    Hashtable,
    Integer,
    IntegerArray,
    Long,
    String,
    StringArray,
    Custom,
    Null,
    EventData,
    OperationRequest,
    OperationResponse,
    /// Any byte that names no tag.
    Unknown,
}

impl GpType {
    /// The tag that a byte names; `Unknown` for a byte that names none.
    pub open spec fn spec_from_code(value: u8) -> GpType {
        match value {
            121 => GpType::Array,
            111 => GpType::Boolean,
            98 => GpType::Byte,
            120 => GpType::ByteArray,
            122 => GpType::ObjectArray,
            107 => GpType::Short,
            102 => GpType::Float,
            68 => GpType::Dictionary,
            100 => GpType::Double,
            104 => GpType::Hashtable,
            105 => GpType::Integer,
            110 => GpType::IntegerArray,
            108 => GpType::Long,
            115 => GpType::String,
            97 => GpType::StringArray,
            99 => GpType::Custom,
            42 => GpType::Null,
            101 => GpType::EventData,
            113 => GpType::OperationRequest,
            112 => GpType::OperationResponse,
            _ => GpType::Unknown,
        }
    }

    /// The byte that names this tag; `0xff` stands for `Unknown`.
    pub open spec fn spec_code(self) -> u8 {
        match self {
            GpType::Array => 121,
            GpType::Boolean => 111,
            GpType::Byte => 98,
            GpType::ByteArray => 120,
            GpType::ObjectArray => 122,
            GpType::Short => 107,
            GpType::Float => 102,
            GpType::Dictionary => 68,
            GpType::Double => 100,
            GpType::Hashtable => 104,
            GpType::Integer => 105,
            GpType::IntegerArray => 110,
            GpType::Long => 108,
            GpType::String => 115,
            GpType::StringArray => 97,
            GpType::Custom => 99,
            GpType::Null => 42,
            GpType::EventData => 101,
            GpType::OperationRequest => 113,
            GpType::OperationResponse => 112,
            GpType::Unknown => 0xff,
        }
    }

    /// Whether values of this tag can be decoded: the tags with an
    /// implemented encoding, and the two that stand for no value.
    pub open spec fn spec_is_implemented(self) -> bool {
        match self {
            GpType::Byte | GpType::ByteArray | GpType::Hashtable | GpType::Integer
            | GpType::String | GpType::Null | GpType::Unknown => true,
            _ => false,
        }
    }

    /// Decodes a tag byte. No byte is rejected: one that names no tag
    /// decodes to `Unknown`.
    pub fn from_u8(value: u8) -> (r: GpType)
        ensures
            r == Self::spec_from_code(value),
    {
        match value {
            121 => GpType::Array,
            111 => GpType::Boolean,
            98 => GpType::Byte,
            120 => GpType::ByteArray,
            122 => GpType::ObjectArray,
            107 => GpType::Short,
            102 => GpType::Float,
            68 => GpType::Dictionary,
            100 => GpType::Double,
            104 => GpType::Hashtable,
            105 => GpType::Integer,
            110 => GpType::IntegerArray,
            108 => GpType::Long,
            115 => GpType::String,
            97 => GpType::StringArray,
            99 => GpType::Custom,
            42 => GpType::Null,
            101 => GpType::EventData,
            113 => GpType::OperationRequest,
            112 => GpType::OperationResponse,
            _ => GpType::Unknown,
        }
    }

    /// The byte that names this tag. An integer is written with the same
    /// byte that it is read with.
    pub fn to_u8(self) -> (r: u8)
        ensures
            r == self.spec_code(),
    {
        match self {
            GpType::Array => 121,
            GpType::Boolean => 111,
            GpType::Byte => 98,
            GpType::ByteArray => 120,
            GpType::ObjectArray => 122,
            GpType::Short => 107,
            GpType::Float => 102,
            GpType::Dictionary => 68,
            GpType::Double => 100,
            GpType::Hashtable => 104,
            GpType::Integer => 105,
            GpType::IntegerArray => 110,
            GpType::Long => 108,
            GpType::String => 115,
            GpType::StringArray => 97,
            GpType::Custom => 99,
            GpType::Null => 42,
            GpType::EventData => 101,
            GpType::OperationRequest => 113,
            GpType::OperationResponse => 112,
            GpType::Unknown => 0xff,
        }
    }

    /// Whether values of this tag can be decoded.
    pub fn is_implemented(self) -> (r: bool)
        ensures
            r == self.spec_is_implemented(),
    {
        match self {
            GpType::Byte | GpType::ByteArray | GpType::Hashtable | GpType::Integer
            | GpType::String | GpType::Null | GpType::Unknown => true,
            _ => false,
        }
    }

    /// Every tag is recovered from its own byte.
    pub proof fn lemma_code_round_trip(self)
        ensures
            Self::spec_from_code(self.spec_code()) == self,
    {
    }
}


impl From<PhotonCode> for u8 {
    fn from(value: PhotonCode) -> (r: u8) {
        value.to_u8()
    }
}

impl vstd::std_specs::convert::FromSpecImpl<PhotonCode> for u8 {
    open spec fn obeys_from_spec() -> bool {
        true
    }

    open spec fn from_spec(value: PhotonCode) -> u8 {
        value.spec_code()
    }
}

impl From<u8> for MessageType {
    fn from(value: u8) -> (r: MessageType) {
        MessageType::from_u8(value)
    }
}

impl vstd::std_specs::convert::FromSpecImpl<u8> for MessageType {
    open spec fn obeys_from_spec() -> bool {
        true
    }

    open spec fn from_spec(value: u8) -> MessageType {
        MessageType::spec_from_code(value)
    }
}

impl From<MessageType> for u8 {
    fn from(value: MessageType) -> (r: u8) {
        value.to_u8()
    }
}

impl vstd::std_specs::convert::FromSpecImpl<MessageType> for u8 {
    open spec fn obeys_from_spec() -> bool {
        true
    }

    open spec fn from_spec(value: MessageType) -> u8 {
        value.spec_code()
    }
}

impl From<u8> for GpType {
    fn from(value: u8) -> (r: GpType) {
        GpType::from_u8(value)
    }
}

impl vstd::std_specs::convert::FromSpecImpl<u8> for GpType {
    open spec fn obeys_from_spec() -> bool {
        true
    }

    open spec fn from_spec(value: u8) -> GpType {
        GpType::spec_from_code(value)
    }
}

impl From<GpType> for u8 {
    fn from(value: GpType) -> (r: u8) {
        value.to_u8()
    }
}

impl vstd::std_specs::convert::FromSpecImpl<GpType> for u8 {
    open spec fn obeys_from_spec() -> bool {
        true
    }

    open spec fn from_spec(value: GpType) -> u8 {
        value.spec_code()
    }
}

} // verus!
