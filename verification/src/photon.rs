//! Messages of the inner protocol: an envelope marker, a message-type byte
//! and a body that depends on the type.

use std::collections::BTreeMap;
use vstd::prelude::*;
use vstd::utf8::{encode_utf8, encode_utf8_decode_utf8, encode_utf8_valid_utf8, valid_utf8};
use crate::codes::{GpType, MessageType};
use crate::error::DecodeError;
use crate::encoding::{lemma_tagged_round_trip, opt_encodable, opt_serializable, spec_encode_tagged,
    write_tagged};
use crate::params::{lemma_table_round_trip, parameter_table_at, spec_encode_table,
    spec_parse_parameter_table, table_encodable, table_serializable, table_view, table_wf,
    write_table};
use crate::text::{decode_text, keeps, lemma_strip_nul_unchanged, spec_text};
use crate::value::{opt_view, opt_view_wf, spec_parse, value_at, Value, ValueView, MAX_DEPTH};
use crate::wire::{lemma_u16_at_encoded, lemma_u16_bytes_len, push_all, push_u16, read_u16, u16_at,
    u16_bytes};

verus! {

/// The marker that opens a plain message.
pub const MAGIC_PLAIN: u8 = 0xf3;

/// The marker that opens a message flagged as encrypted.
pub const MAGIC_ENCRYPTED: u8 = 0xfd;

/// The first message of a session.
#[derive(Debug, Clone, PartialEq, Eq)]
pub struct Init {
    pub protocol_version: [u8; 2],
    pub client_sdk_id: u8,
    pub client_version: [u8; 4],
    pub app_id: String,
}

/// The answer to [`Init`].
#[derive(Debug, Clone, Copy, PartialEq, Eq)]
pub struct InitResponse {
    pub acked_num: u8,
}

/// A request of the client.
#[derive(Debug, Clone, PartialEq, Eq)]
pub struct Operation {
    pub msg_type: MessageType,
    pub opcode: u8,
    pub values: BTreeMap<u8, Option<Value>>,
}

/// A notification.
#[derive(Debug, Clone, PartialEq, Eq)]
pub struct Event {
    pub msg_type: MessageType,
    pub opcode: u8,
    pub values: BTreeMap<u8, Option<Value>>,
}

/// A request that the transport itself makes.
#[derive(Debug, Clone, PartialEq, Eq)]
pub struct InternalOperationRequest {
    pub msg_type: MessageType,
    pub opcode: u8,
    pub values: BTreeMap<u8, Option<Value>>,
}

/// A message whose body is encrypted; only its length is kept.
#[derive(Debug, Clone, Copy, PartialEq, Eq)]
pub struct Encrypted {
    pub packet_len: usize,
}

/// The answer to an [`Operation`].
#[derive(Debug, Clone, PartialEq, Eq)]
pub struct OperationResponse {
    pub opcode: u8,
    pub retcode: u16,
    pub dbg_msg: Option<Value>,
    pub parameters: BTreeMap<u8, Option<Value>>,
}

/// The answer to an [`InternalOperationRequest`].
#[derive(Debug, Clone, PartialEq, Eq)]
pub struct InternalOperationResponse {
    pub msg_type: MessageType,
    pub opcode: u8,
    pub values: BTreeMap<u8, Option<Value>>,
}

/// A message of the inner protocol.
#[derive(Debug, Clone, PartialEq, Eq)]
pub enum PhotonCommand {
    Init(Init),
    InitResponse(InitResponse),
    Operation(Operation),
    Event(Event),
    Encrypted(Encrypted),
    OperationResponse(OperationResponse),
    InternalOperationRequest(InternalOperationRequest),
    InternalOperationResponse(InternalOperationResponse),
}

/// What a [`PhotonCommand`] denotes.
pub enum PhotonCommandView {
    Init { protocol_version: Seq<u8>, client_sdk_id: u8, client_version: Seq<u8>, app_id: Seq<char> },
    InitResponse { acked_num: u8 },
    Operation { opcode: u8, values: Map<u8, Option<ValueView>> },
    Event { opcode: u8, values: Map<u8, Option<ValueView>> },
    Encrypted { packet_len: nat },
    OperationResponse {
        opcode: u8,
        retcode: u16,
        dbg_msg: Option<ValueView>,
        parameters: Map<u8, Option<ValueView>>,
    },
    InternalOperationRequest { opcode: u8, values: Map<u8, Option<ValueView>> },
    InternalOperationResponse { opcode: u8, values: Map<u8, Option<ValueView>> },
}

impl View for PhotonCommand {
    type V = PhotonCommandView;

    open spec fn view(&self) -> PhotonCommandView {
        match self {
            PhotonCommand::Init(m) => PhotonCommandView::Init {
                protocol_version: m.protocol_version@,
                client_sdk_id: m.client_sdk_id,
                client_version: m.client_version@,
                app_id: m.app_id@,
            },
            PhotonCommand::InitResponse(m) => PhotonCommandView::InitResponse {
                acked_num: m.acked_num,
            },
            PhotonCommand::Operation(m) => PhotonCommandView::Operation {
                opcode: m.opcode,
                values: table_view(m.values@),
            },
            PhotonCommand::Event(m) => PhotonCommandView::Event {
                opcode: m.opcode,
                values: table_view(m.values@),
            },
            PhotonCommand::Encrypted(m) => PhotonCommandView::Encrypted {
                packet_len: m.packet_len as nat,
            },
            PhotonCommand::OperationResponse(m) => PhotonCommandView::OperationResponse {
                opcode: m.opcode,
                retcode: m.retcode,
                dbg_msg: opt_view(m.dbg_msg),
                parameters: table_view(m.parameters@),
            },
            PhotonCommand::InternalOperationRequest(m) => PhotonCommandView::InternalOperationRequest {
                opcode: m.opcode,
                values: table_view(m.values@),
            },
            PhotonCommand::InternalOperationResponse(m) => PhotonCommandView::InternalOperationResponse {
                opcode: m.opcode,
                values: table_view(m.values@),
            },
        }
    }
}

impl PhotonCommand {
    /// The message-type field of a message agrees with its variant, and
    /// the tables inside its values have distinct keys.
    pub open spec fn wf(self) -> bool {
        match self {
            PhotonCommand::Operation(m) => m.msg_type == MessageType::Operation && table_wf(
                table_view(m.values@),
            ),
            PhotonCommand::Event(m) => m.msg_type == MessageType::Event && table_wf(
                table_view(m.values@),
            ),
            PhotonCommand::InternalOperationRequest(m) => m.msg_type
                == MessageType::InternalOperationRequest && table_wf(table_view(m.values@)),
            PhotonCommand::InternalOperationResponse(m) => m.msg_type
                == MessageType::InternalOperationResponse && table_wf(table_view(m.values@)),
            PhotonCommand::OperationResponse(m) => opt_view_wf(opt_view(m.dbg_msg)) && table_wf(
                table_view(m.parameters@),
            ),
            _ => true,
        }
    }
}

impl PhotonCommandView {
    /// The byte that names the type of the message.
    pub open spec fn spec_type(self) -> MessageType {
        match self {
            PhotonCommandView::Init { .. } => MessageType::Init,
            PhotonCommandView::InitResponse { .. } => MessageType::InitResponse,
            PhotonCommandView::Operation { .. } => MessageType::Operation,
            PhotonCommandView::Event { .. } => MessageType::Event,
            PhotonCommandView::Encrypted { .. } => MessageType::Unknown(0x80),
            PhotonCommandView::OperationResponse { .. } => MessageType::OperationResponse,
            PhotonCommandView::InternalOperationRequest { .. } => MessageType::InternalOperationRequest,
            PhotonCommandView::InternalOperationResponse { .. } => MessageType::InternalOperationResponse,
        }
    }

    /// Whether the message has a wire form: its fields fit their places
    /// and its values have a wire form. An encrypted message has none, as
    /// its body was not kept.
    pub open spec fn spec_serializable(self) -> bool {
        match self {
            PhotonCommandView::Init { protocol_version, client_sdk_id, client_version, .. } => {
                &&& protocol_version.len() == 2
                &&& client_version.len() == 4
                &&& client_sdk_id < 128
                &&& client_version[0] < 16
                &&& client_version[1] < 16
            },
            PhotonCommandView::InitResponse { .. } => true,
            PhotonCommandView::Operation { values, .. } => table_serializable(values),
            PhotonCommandView::Event { values, .. } => table_serializable(values),
            PhotonCommandView::Encrypted { .. } => false,
            PhotonCommandView::OperationResponse { dbg_msg, parameters, .. } => opt_serializable(
                dbg_msg,
            ) && table_serializable(parameters),
            PhotonCommandView::InternalOperationRequest { values, .. } => table_serializable(values),
            PhotonCommandView::InternalOperationResponse { values, .. } => table_serializable(
                values,
            ),
        }
    }

    /// The bytes of the message after the marker and the type byte.
    pub open spec fn spec_body(self) -> Seq<u8> {
        match self {
            PhotonCommandView::Init { protocol_version, client_sdk_id, client_version, app_id } => seq![
                protocol_version[0],
                protocol_version[1],
                (client_sdk_id * 2) as u8,
                (client_version[0] * 16 + client_version[1]) as u8,
                client_version[2],
                client_version[3],
                0u8,
            ] + encode_utf8(app_id),
            PhotonCommandView::InitResponse { acked_num } => seq![acked_num],
            PhotonCommandView::Operation { opcode, values } => seq![opcode] + spec_encode_table(
                values,
            ),
            PhotonCommandView::Event { opcode, values } => seq![opcode] + spec_encode_table(values),
            PhotonCommandView::Encrypted { .. } => Seq::empty(),
            PhotonCommandView::OperationResponse { opcode, retcode, dbg_msg, parameters } => seq![
                opcode,
            ] + u16_bytes(retcode as int) + spec_encode_tagged(dbg_msg) + spec_encode_table(
                parameters,
            ),
            PhotonCommandView::InternalOperationRequest { opcode, values } => seq![opcode]
                + spec_encode_table(values),
            PhotonCommandView::InternalOperationResponse { opcode, values } => seq![opcode]
                + spec_encode_table(values),
        }
    }

    /// The bytes of the message on the wire: the marker of a plain
    /// message, the type byte, and the body.
    pub open spec fn spec_serialize(self) -> Seq<u8> {
        seq![MAGIC_PLAIN, self.spec_type().spec_code()] + self.spec_body()
    }
}

impl PhotonCommand {
    /// The bytes of the message on the wire, under the marker of a plain
    /// message; nothing for a message that has no wire form.
    pub fn serialize(&self) -> (r: Option<Vec<u8>>)
        ensures
            r is Some <==> self@.spec_serializable(),
            r matches Some(bytes) ==> bytes@ == self@.spec_serialize(),
    {
        let mut out: Vec<u8> = Vec::new();
        out.push(MAGIC_PLAIN);
        match self {
            PhotonCommand::Init(m) => {
                let sdk = m.client_sdk_id;
                let major = m.client_version[0];
                let minor = m.client_version[1];
                if sdk >= 128 || major >= 16 || minor >= 16 {
                    return None;
                }
                out.push(MessageType::Init.to_u8());
                out.push(m.protocol_version[0]);
                out.push(m.protocol_version[1]);
                out.push(sdk * 2);
                out.push(major * 16 + minor);
                out.push(m.client_version[2]);
                out.push(m.client_version[3]);
                out.push(0);
                push_all(&mut out, m.app_id.as_str().as_bytes());
                Some(out)
            },
            PhotonCommand::InitResponse(m) => {
                out.push(MessageType::InitResponse.to_u8());
                out.push(m.acked_num);
                Some(out)
            },
            PhotonCommand::Operation(m) => {
                out.push(MessageType::Operation.to_u8());
                out.push(m.opcode);
                if !write_table(&m.values, &mut out) {
                    return None;
                }
                assert(out@ =~= self@.spec_serialize());
                Some(out)
            },
            PhotonCommand::Event(m) => {
                out.push(MessageType::Event.to_u8());
                out.push(m.opcode);
                if !write_table(&m.values, &mut out) {
                    return None;
                }
                Some(out)
            },
            PhotonCommand::Encrypted(_) => None,
            PhotonCommand::OperationResponse(m) => {
                out.push(MessageType::OperationResponse.to_u8());
                out.push(m.opcode);
                push_u16(&mut out, m.retcode);
                if !write_tagged(&m.dbg_msg, &mut out) {
                    return None;
                }
                if !write_table(&m.parameters, &mut out) {
                    return None;
                }
                Some(out)
            },
            PhotonCommand::InternalOperationRequest(m) => {
                out.push(MessageType::InternalOperationRequest.to_u8());
                out.push(m.opcode);
                if !write_table(&m.values, &mut out) {
                    return None;
                }
                Some(out)
            },
            PhotonCommand::InternalOperationResponse(m) => {
                out.push(MessageType::InternalOperationResponse.to_u8());
                out.push(m.opcode);
                if !write_table(&m.values, &mut out) {
                    return None;
                }
                Some(out)
            },
        }
    }
}

/// Whether a message-type byte marks an encrypted body: its top bit is
/// set, and it is not the byte of an initial response with that bit set.
pub open spec fn is_encrypted_pattern(b: u8) -> bool {
    b >= 0x80 && b != 0x81
}

/// What decoding the body of an initial message gives.
pub open spec fn spec_decode_init(buf: Seq<u8>) -> Result<PhotonCommandView, DecodeError> {
    if buf.len() < 9 {
        Err(DecodeError::TruncatedInput)
    } else if !valid_utf8(buf.subrange(9, buf.len() as int)) {
        Err(DecodeError::InvalidText)
    } else {
        Ok(
            PhotonCommandView::Init {
                protocol_version: seq![buf[2], buf[3]],
                client_sdk_id: buf[4] / 2,
                client_version: seq![buf[5] / 16, buf[5] % 16, buf[6], buf[7]],
                app_id: spec_text(buf.subrange(9, buf.len() as int)),
            },
        )
    }
}

/// What decoding the body of an operation response gives: an opcode, a
/// 16-bit return code, a tagged debug value and a parameter table.
pub open spec fn spec_decode_response(buf: Seq<u8>) -> Result<PhotonCommandView, DecodeError> {
    if buf.len() < 6 {
        Err(DecodeError::TruncatedInput)
    } else {
        match spec_parse(GpType::spec_from_code(buf[5]), buf, 6, MAX_DEPTH as nat) {
            Err(e) => Err(e),
            Ok((dbg_msg, c)) => match spec_parse_parameter_table(buf, c) {
                Err(e) => Err(e),
                Ok((parameters, _)) => Ok(
                    PhotonCommandView::OperationResponse {
                        opcode: buf[2],
                        retcode: u16_at(buf, 3) as u16,
                        dbg_msg,
                        parameters,
                    },
                ),
            },
        }
    }
}

/// What decoding a body made of an opcode and a parameter table gives.
pub open spec fn spec_decode_call(t: MessageType, buf: Seq<u8>) -> Result<
    PhotonCommandView,
    DecodeError,
> {
    if buf.len() < 3 {
        Err(DecodeError::TruncatedInput)
    } else {
        match spec_parse_parameter_table(buf, 3) {
            Err(e) => Err(e),
            Ok((values, _)) => match t {
                MessageType::Operation => Ok(PhotonCommandView::Operation { opcode: buf[2], values }),
                MessageType::Event => Ok(PhotonCommandView::Event { opcode: buf[2], values }),
                MessageType::InternalOperationRequest => Ok(
                    PhotonCommandView::InternalOperationRequest { opcode: buf[2], values },
                ),
                _ => Ok(PhotonCommandView::InternalOperationResponse { opcode: buf[2], values }),
            },
        }
    }
}

/// What decoding a message gives.
pub open spec fn spec_decode(buf: Seq<u8>) -> Result<PhotonCommandView, DecodeError> {
    if buf.len() < 1 {
        Err(DecodeError::TruncatedInput)
    } else if buf[0] != MAGIC_PLAIN && buf[0] != MAGIC_ENCRYPTED {
        Err(DecodeError::UnknownMessageType(buf[0]))
    } else if buf.len() < 2 {
        Err(DecodeError::TruncatedInput)
    } else {
        match MessageType::spec_from_code(buf[1]) {
            MessageType::Unknown(b) => if is_encrypted_pattern(b) {
                Ok(PhotonCommandView::Encrypted { packet_len: buf.len() })
            } else {
                Err(DecodeError::UnknownMessageType(b))
            },
            MessageType::Init => spec_decode_init(buf),
            MessageType::InitResponse => if buf.len() < 3 {
                Err(DecodeError::TruncatedInput)
            } else {
                Ok(PhotonCommandView::InitResponse { acked_num: buf[2] })
            },
            MessageType::OperationResponse => spec_decode_response(buf),
            MessageType::Message => Err(
                DecodeError::UnsupportedMessageType(MessageType::Message),
            ),
            MessageType::RawMessage => Err(
                DecodeError::UnsupportedMessageType(MessageType::RawMessage),
            ),
            t => spec_decode_call(t, buf),
        }
    }
}

/// A message that ends before its type byte, or before the fixed fields
/// of its type, is truncated.
pub proof fn lemma_short_message_is_truncated(buf: Seq<u8>)
    requires
        buf.len() == 0 || buf[0] == MAGIC_PLAIN || buf[0] == MAGIC_ENCRYPTED,
        buf.len() < 2 || match MessageType::spec_from_code(buf[1]) {
            MessageType::Init => buf.len() < 9,
            MessageType::InitResponse => buf.len() < 3,
            MessageType::OperationResponse => buf.len() < 6,
            MessageType::Operation => buf.len() < 5,
            MessageType::Event => buf.len() < 5,
            MessageType::InternalOperationRequest => buf.len() < 5,
            MessageType::InternalOperationResponse => buf.len() < 5,
            _ => false,
        },
    ensures
        spec_decode(buf) == Err::<PhotonCommandView, DecodeError>(DecodeError::TruncatedInput),
{
}

impl PhotonCommandView {
    /// Whether the message can be written and read back: it has a wire
    /// form, its values can be written and read back, and the application
    /// id of an initial message holds no NUL.
    pub open spec fn spec_encodable(self) -> bool {
        &&& self.spec_serializable()
        &&& match self {
            PhotonCommandView::Init { app_id, .. } => forall|i: int|
                0 <= i < app_id.len() ==> keeps(#[trigger] app_id[i]),
            PhotonCommandView::Operation { values, .. } => table_encodable(values),
            PhotonCommandView::Event { values, .. } => table_encodable(values),
            PhotonCommandView::OperationResponse { dbg_msg, parameters, .. } => opt_encodable(
                dbg_msg,
                MAX_DEPTH as nat,
            ) && table_encodable(parameters),
            PhotonCommandView::InternalOperationRequest { values, .. } => table_encodable(values),
            PhotonCommandView::InternalOperationResponse { values, .. } => table_encodable(values),
            _ => true,
        }
    }
}

/// Decoding the bytes of a message gives the message back.
pub proof fn lemma_message_round_trip(m: PhotonCommandView)
    requires
        m.spec_encodable(),
    ensures
        spec_decode(m.spec_serialize()) == Ok::<PhotonCommandView, DecodeError>(m),
{
    let buf = m.spec_serialize();
    m.spec_type().lemma_code_round_trip();
    match m {
        PhotonCommandView::Init { protocol_version, client_sdk_id, client_version, app_id } => {
            let text = encode_utf8(app_id);
            assert(buf.subrange(9, buf.len() as int) =~= text);
            encode_utf8_valid_utf8(app_id);
            encode_utf8_decode_utf8(app_id);
            lemma_strip_nul_unchanged(app_id);
            assert(seq![buf[2], buf[3]] =~= protocol_version);
            assert(seq![buf[5] / 16, buf[5] % 16, buf[6], buf[7]] =~= client_version);
        },
        PhotonCommandView::InitResponse { .. } => {},
        PhotonCommandView::Operation { values, .. } => {
            lemma_call_round_trip(m, values);
        },
        PhotonCommandView::Event { values, .. } => {
            lemma_call_round_trip(m, values);
        },
        PhotonCommandView::InternalOperationRequest { values, .. } => {
            lemma_call_round_trip(m, values);
        },
        PhotonCommandView::InternalOperationResponse { values, .. } => {
            lemma_call_round_trip(m, values);
        },
        PhotonCommandView::OperationResponse { opcode, retcode, dbg_msg, parameters } => {
            let tagged = spec_encode_tagged(dbg_msg);
            let table = spec_encode_table(parameters);
            let tl = tagged.len() as int;
            let bl = table.len() as int;
            lemma_u16_bytes_len(retcode as int);
            assert(buf.subrange(3, 5) =~= u16_bytes(retcode as int));
            lemma_u16_at_encoded(buf, 3, retcode as int);
            assert(buf.subrange(5, 5 + tl) =~= tagged);
            lemma_tagged_round_trip(dbg_msg, MAX_DEPTH as nat, buf, 5);
            assert(buf.subrange(5 + tl, 5 + tl + bl) =~= table);
            lemma_table_round_trip(parameters, buf, 5 + tl);
        },
        PhotonCommandView::Encrypted { .. } => {},
    }
}

/// Decoding the bytes of a message made of an opcode and a table gives
/// the message back.
proof fn lemma_call_round_trip(m: PhotonCommandView, values: Map<u8, Option<ValueView>>)
    requires
        m.spec_encodable(),
        table_encodable(values),
        m.spec_body().len() > 0,
        m.spec_body() == seq![m.spec_body()[0]] + spec_encode_table(values),
    ensures
        m.spec_serialize().len() >= 3,
        spec_parse_parameter_table(m.spec_serialize(), 3) == Ok::<
            (Map<u8, Option<ValueView>>, int),
            DecodeError,
        >((values, m.spec_serialize().len() as int)),
{
    let buf = m.spec_serialize();
    let table = spec_encode_table(values);
    let n = table.len() as int;
    assert(buf.subrange(3, 3 + n) =~= table);
    lemma_table_round_trip(values, buf, 3);
}

impl PhotonCommand {
    /// Decodes one message.
    ///
    /// The first byte must be one of the two envelope markers, and the
    /// second a message type or the pattern of an encrypted body, else the
    /// result is `UnknownMessageType` with the byte that was not recognised.
    /// A body that ends early gives `TruncatedInput`; a malformed field gives
    /// its own error; no partial message is returned.
    pub fn decode(buf: &[u8]) -> (r: Result<PhotonCommand, DecodeError>)
        ensures
            match spec_decode(buf@) {
                Ok(v) => r is Ok && r->Ok_0@ == v && r->Ok_0.wf(),
                Err(e) => r == Err::<PhotonCommand, DecodeError>(e),
            },
    {
        if buf.len() < 1 {
            return Err(DecodeError::TruncatedInput);
        }
        if buf[0] != MAGIC_PLAIN && buf[0] != MAGIC_ENCRYPTED {
            return Err(DecodeError::UnknownMessageType(buf[0]));
        }
        if buf.len() < 2 {
            return Err(DecodeError::TruncatedInput);
        }
        let msg_type = MessageType::from_u8(buf[1]);
        match msg_type {
            MessageType::Unknown(b) => {
                if b >= 0x80 && b != 0x81 {
                    Ok(PhotonCommand::Encrypted(Encrypted { packet_len: buf.len() }))
                } else {
                    Err(DecodeError::UnknownMessageType(b))
                }
            },
            MessageType::Init => Self::decode_init(buf),
            MessageType::InitResponse => {
                if buf.len() < 3 {
                    return Err(DecodeError::TruncatedInput);
                }
                Ok(PhotonCommand::InitResponse(InitResponse { acked_num: buf[2] }))
            },
            MessageType::OperationResponse => Self::decode_response(buf),
            MessageType::Message => Err(DecodeError::UnsupportedMessageType(MessageType::Message)),
            MessageType::RawMessage => Err(
                DecodeError::UnsupportedMessageType(MessageType::RawMessage),
            ),
            _ => Self::decode_call(msg_type, buf),
        }
    }

    /// Decodes the body of an initial message.
    fn decode_init(buf: &[u8]) -> (r: Result<PhotonCommand, DecodeError>)
        ensures
            match spec_decode_init(buf@) {
                Ok(v) => r is Ok && r->Ok_0@ == v && r->Ok_0.wf(),
                Err(e) => r == Err::<PhotonCommand, DecodeError>(e),
            },
    {
        if buf.len() < 9 {
            return Err(DecodeError::TruncatedInput);
        }
        let app_id = match decode_text(vstd::slice::slice_subrange(buf, 9, buf.len())) {
            Ok(s) => s,
            Err(e) => {
                return Err(e);
            },
        };
        let protocol_version: [u8; 2] = [buf[2], buf[3]];
        let client_version: [u8; 4] = [buf[5] / 16, buf[5] % 16, buf[6], buf[7]];
        let init = Init { protocol_version, client_sdk_id: buf[4] / 2, client_version, app_id };
        Ok(PhotonCommand::Init(init))
    }

    /// Decodes the body of an operation response.
    fn decode_response(buf: &[u8]) -> (r: Result<PhotonCommand, DecodeError>)
        ensures
            match spec_decode_response(buf@) {
                Ok(v) => r is Ok && r->Ok_0@ == v && r->Ok_0.wf(),
                Err(e) => r == Err::<PhotonCommand, DecodeError>(e),
            },
    {
        if buf.len() < 6 {
            return Err(DecodeError::TruncatedInput);
        }
        let opcode = buf[2];
        let retcode = match read_u16(buf, 3) {
            Ok(v) => v,
            Err(e) => {
                return Err(e);
            },
        };
        let (dbg_msg, after) = match value_at(GpType::from_u8(buf[5]), buf, 6, MAX_DEPTH) {
            Ok(p) => p,
            Err(e) => {
                return Err(e);
            },
        };
        let (parameters, _) = match parameter_table_at(buf, after) {
            Ok(p) => p,
            Err(e) => {
                return Err(e);
            },
        };
        Ok(
            PhotonCommand::OperationResponse(
                OperationResponse { opcode, retcode, dbg_msg, parameters },
            ),
        )
    }

    /// Decodes a body made of an opcode and a parameter table.
    fn decode_call(msg_type: MessageType, buf: &[u8]) -> (r: Result<PhotonCommand, DecodeError>)
        requires
            msg_type == MessageType::Operation || msg_type == MessageType::Event || msg_type
                == MessageType::InternalOperationRequest || msg_type
                == MessageType::InternalOperationResponse,
        ensures
            match spec_decode_call(msg_type, buf@) {
                Ok(v) => r is Ok && r->Ok_0@ == v && r->Ok_0.wf(),
                Err(e) => r == Err::<PhotonCommand, DecodeError>(e),
            },
    {
        if buf.len() < 3 {
            return Err(DecodeError::TruncatedInput);
        }
        let opcode = buf[2];
        let (values, _) = match parameter_table_at(buf, 3) {
            Ok(p) => p,
            Err(e) => {
                return Err(e);
            },
        };
        match msg_type {
            MessageType::Operation => Ok(
                PhotonCommand::Operation(Operation { msg_type, opcode, values }),
            ),
            MessageType::Event => Ok(PhotonCommand::Event(Event { msg_type, opcode, values })),
            MessageType::InternalOperationRequest => Ok(
                PhotonCommand::InternalOperationRequest(
                    InternalOperationRequest { msg_type, opcode, values },
                ),
            ),
            _ => Ok(
                PhotonCommand::InternalOperationResponse(
                    InternalOperationResponse { msg_type, opcode, values },
                ),
            ),
        }
    }
}

} // verus!
