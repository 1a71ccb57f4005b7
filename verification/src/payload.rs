//! Command payloads: a few fixed fields for the commands that manage the
//! connection, a message of the inner protocol for those that carry data.

use vstd::prelude::*;
use crate::error::DecodeError;
use crate::fragment::{spec_ingest, FragmentBufferView, FragmentReassembler};
use crate::header::CommandHeader;
use crate::photon::{lemma_message_round_trip, spec_decode, PhotonCommand, PhotonCommandView};
use crate::typ::CommandType;
use crate::wire::{lemma_u16_at_encoded, lemma_u16_bytes_len, lemma_u32_at_encoded,
    lemma_u32_bytes_len, push_u16, push_u32, push_zeros, read_u16, read_u32, u16_at, u16_bytes,
    u32_at, u32_bytes, zeros};

verus! {

/// The payload of a connect command.
#[derive(Debug, Clone, Copy, PartialEq, Eq)]
pub struct Connect {
    pub mtu: u16,
    pub channel_count: u8,
    /// The length of the payload in bytes.
    pub len: u32,
}

/// The payload of an acknowledgement.
#[derive(Debug, Clone, Copy, PartialEq, Eq)]
pub struct Ack {
    pub acked_seq_num: u32,
    pub send_time: u32,
    /// The length of the payload in bytes.
    pub len: u32,
}

/// The payload of the answer to a connect command.
#[derive(Debug, Clone, Copy, PartialEq, Eq)]
pub struct VerifyConnect {
    pub peer_id: u16,
    /// The length of the payload in bytes.
    pub len: u32,
}

/// The payload of a ping, which has no fields.
#[derive(Debug, Clone, Copy, PartialEq, Eq)]
pub struct Ping {
    /// The length of the payload in bytes.
    pub len: u32,
}

/// The payload of a disconnect command, which has no fields.
#[derive(Debug, Clone, Copy, PartialEq, Eq)]
pub struct Disconnect {
    /// The length of the payload in bytes.
    pub len: u32,
}

/// A message sent reliably.
#[derive(Debug, Clone, PartialEq, Eq)]
pub struct Reliable {
    pub payload: PhotonCommand,
    /// The length of the payload in bytes.
    pub len: u32,
}

/// A message sent without acknowledgement.
#[derive(Debug, Clone, PartialEq, Eq)]
pub struct Unreliable {
    pub payload: PhotonCommand,
    /// The length of the payload in bytes.
    pub len: u32,
}

/// A message that arrived in fragments.
#[derive(Debug, Clone, PartialEq, Eq)]
pub struct Fragmented {
    pub payload: PhotonCommand,
    /// The length of the whole message in bytes.
    pub len: u32,
}

/// The payload of a server-time command, which has no fields.
#[derive(Debug, Clone, Copy, PartialEq, Eq)]
pub struct ServerTime {
    /// The length of the payload in bytes.
    pub len: u32,
}

/// The payload of a command, one variant for each kind of command.
#[derive(Debug, Clone, PartialEq, Eq)]
pub enum CommandPayload {
    Nothing,
    Ack(Ack),
    Connect(Connect),
    VerifyConnect(VerifyConnect),
    Ping(Ping),
    Disconnect(Disconnect),
    Reliable(Reliable),
    Unreliable(Unreliable),
    Fragmented(Fragmented),
    ServerTime(ServerTime),
}

/// What a [`CommandPayload`] denotes.
pub enum CommandPayloadView {
    Nothing,
    Ack(Ack),
    Connect(Connect),
    VerifyConnect(VerifyConnect),
    Ping(Ping),
    Disconnect(Disconnect),
    Reliable { payload: PhotonCommandView, len: u32 },
    Unreliable { payload: PhotonCommandView, len: u32 },
    Fragmented { payload: PhotonCommandView, len: u32 },
    ServerTime(ServerTime),
}

impl View for CommandPayload {
    type V = CommandPayloadView;

    open spec fn view(&self) -> CommandPayloadView {
        match self {
            CommandPayload::Nothing => CommandPayloadView::Nothing,
            CommandPayload::Ack(p) => CommandPayloadView::Ack(*p),
            CommandPayload::Connect(p) => CommandPayloadView::Connect(*p),
            CommandPayload::VerifyConnect(p) => CommandPayloadView::VerifyConnect(*p),
            CommandPayload::Ping(p) => CommandPayloadView::Ping(*p),
            CommandPayload::Disconnect(p) => CommandPayloadView::Disconnect(*p),
            CommandPayload::Reliable(p) => CommandPayloadView::Reliable {
                payload: p.payload@,
                len: p.len,
            },
            CommandPayload::Unreliable(p) => CommandPayloadView::Unreliable {
                payload: p.payload@,
                len: p.len,
            },
            CommandPayload::Fragmented(p) => CommandPayloadView::Fragmented {
                payload: p.payload@,
                len: p.len,
            },
            CommandPayload::ServerTime(p) => CommandPayloadView::ServerTime(*p),
        }
    }
}

impl CommandPayload {
    /// A message that the payload carries is well formed: its type field
    /// agrees with its variant, and the tables in its values have distinct
    /// keys.
    pub open spec fn wf(self) -> bool {
        match self {
            CommandPayload::Reliable(p) => p.payload.wf(),
            CommandPayload::Unreliable(p) => p.payload.wf(),
            CommandPayload::Fragmented(p) => p.payload.wf(),
            _ => true,
        }
    }
}

impl CommandPayloadView {
    /// The length in bytes that the payload accounts for.
    pub open spec fn spec_len(self) -> u32 {
        match self {
            CommandPayloadView::Nothing => 0,
            CommandPayloadView::Ack(p) => p.len,
            CommandPayloadView::Connect(p) => p.len,
            CommandPayloadView::VerifyConnect(p) => p.len,
            CommandPayloadView::Ping(p) => p.len,
            CommandPayloadView::Disconnect(p) => p.len,
            CommandPayloadView::Reliable { len, .. } => len,
            CommandPayloadView::Unreliable { len, .. } => len,
            CommandPayloadView::Fragmented { len, .. } => len,
            CommandPayloadView::ServerTime(p) => p.len,
        }
    }
}

impl CommandPayloadView {
    /// Whether the payload has a wire form: its fields fit in its length,
    /// and a message it carries has a wire form of that length.
    pub open spec fn spec_serializable(self) -> bool {
        match self {
            CommandPayloadView::Nothing => true,
            CommandPayloadView::Ack(p) => p.len >= 8,
            CommandPayloadView::Connect(p) => p.len >= 12,
            CommandPayloadView::VerifyConnect(p) => p.len >= 2,
            CommandPayloadView::Ping(_) => true,
            CommandPayloadView::Disconnect(_) => true,
            CommandPayloadView::ServerTime(_) => true,
            CommandPayloadView::Reliable { payload, len } => payload.spec_serializable()
                && payload.spec_serialize().len() == len,
            CommandPayloadView::Unreliable { payload, len } => payload.spec_serializable()
                && payload.spec_serialize().len() == len,
            CommandPayloadView::Fragmented { payload, len } => payload.spec_serializable()
                && payload.spec_serialize().len() == len,
        }
    }

    /// The bytes of the payload on the wire: its fields at their places
    /// in as many bytes as its length says, the other bytes zero; or the
    /// bytes of the message it carries.
    pub open spec fn spec_serialize(self) -> Seq<u8> {
        match self {
            CommandPayloadView::Nothing => Seq::empty(),
            CommandPayloadView::Ack(p) => u32_bytes(p.acked_seq_num as int) + u32_bytes(
                p.send_time as int,
            ) + zeros(p.len - 8),
            CommandPayloadView::Connect(p) => zeros(2) + u16_bytes(p.mtu as int) + zeros(7)
                + seq![p.channel_count] + zeros(p.len - 12),
            CommandPayloadView::VerifyConnect(p) => u16_bytes(p.peer_id as int) + zeros(p.len - 2),
            CommandPayloadView::Ping(p) => zeros(p.len as int),
            CommandPayloadView::Disconnect(p) => zeros(p.len as int),
            CommandPayloadView::ServerTime(p) => zeros(p.len as int),
            CommandPayloadView::Reliable { payload, .. } => payload.spec_serialize(),
            CommandPayloadView::Unreliable { payload, .. } => payload.spec_serialize(),
            CommandPayloadView::Fragmented { payload, .. } => payload.spec_serialize(),
        }
    }
}

impl CommandPayloadView {
    /// The kind of command that carries this payload.
    pub open spec fn spec_kind(self) -> CommandType {
        match self {
            CommandPayloadView::Nothing => CommandType::Nothing,
            CommandPayloadView::Ack(_) => CommandType::Ack,
            CommandPayloadView::Connect(_) => CommandType::Connect,
            CommandPayloadView::VerifyConnect(_) => CommandType::VerifyConnect,
            CommandPayloadView::Ping(_) => CommandType::Ping,
            CommandPayloadView::Disconnect(_) => CommandType::Disconnect,
            CommandPayloadView::Reliable { .. } => CommandType::Reliable,
            CommandPayloadView::Unreliable { .. } => CommandType::Unreliable,
            CommandPayloadView::Fragmented { .. } => CommandType::Fragmented,
            CommandPayloadView::ServerTime(_) => CommandType::ServerTime,
        }
    }

    /// Whether the payload can be written and read back: it has a wire
    /// form, and so has a message it carries, with values that can be
    /// written and read back.
    pub open spec fn spec_encodable(self) -> bool {
        &&& self.spec_serializable()
        &&& match self {
            CommandPayloadView::Reliable { payload, .. } => payload.spec_encodable(),
            CommandPayloadView::Unreliable { payload, .. } => payload.spec_encodable(),
            CommandPayloadView::Fragmented { payload, .. } => payload.spec_encodable(),
            _ => true,
        }
    }
}

/// The bytes of a payload are as many as its length says.
pub proof fn lemma_payload_length(p: CommandPayloadView)
    requires
        p.spec_serializable(),
    ensures
        p.spec_serialize().len() == p.spec_len(),
{
    match p {
        CommandPayloadView::Ack(a) => {
            lemma_u32_bytes_len(a.acked_seq_num as int);
            lemma_u32_bytes_len(a.send_time as int);
        },
        CommandPayloadView::Connect(c) => {
            lemma_u16_bytes_len(c.mtu as int);
        },
        CommandPayloadView::VerifyConnect(v) => {
            lemma_u16_bytes_len(v.peer_id as int);
        },
        _ => {},
    }
}

/// Decoding the bytes of a payload, as the payload of a command of its
/// kind, gives the payload back. A fragment is left out: what it gives
/// depends on the fragments before it.
pub proof fn lemma_payload_round_trip(p: CommandPayloadView)
    requires
        p.spec_encodable(),
        !(p is Fragmented),
    ensures
        spec_plain_payload(p.spec_serialize(), p.spec_kind()) == Ok::<
            CommandPayloadView,
            DecodeError,
        >(p),
{
    let buf = p.spec_serialize();
    lemma_payload_length(p);
    match p {
        CommandPayloadView::Ack(a) => {
            lemma_u32_bytes_len(a.acked_seq_num as int);
            lemma_u32_bytes_len(a.send_time as int);
            assert(buf.subrange(0, 4) =~= u32_bytes(a.acked_seq_num as int));
            assert(buf.subrange(4, 8) =~= u32_bytes(a.send_time as int));
            lemma_u32_at_encoded(buf, 0, a.acked_seq_num as int);
            lemma_u32_at_encoded(buf, 4, a.send_time as int);
        },
        CommandPayloadView::Connect(c) => {
            lemma_u16_bytes_len(c.mtu as int);
            assert(buf.subrange(2, 4) =~= u16_bytes(c.mtu as int));
            lemma_u16_at_encoded(buf, 2, c.mtu as int);
        },
        CommandPayloadView::VerifyConnect(v) => {
            lemma_u16_bytes_len(v.peer_id as int);
            assert(buf.subrange(0, 2) =~= u16_bytes(v.peer_id as int));
            lemma_u16_at_encoded(buf, 0, v.peer_id as int);
        },
        CommandPayloadView::Reliable { payload, .. } => {
            lemma_message_round_trip(payload);
        },
        CommandPayloadView::Unreliable { payload, .. } => {
            lemma_message_round_trip(payload);
        },
        _ => {},
    }
}

/// The bytes of `message` where they are as many as `len`.
fn message_bytes(message: &PhotonCommand, len: u32) -> (r: Option<Vec<u8>>)
    ensures
        r is Some <==> message@.spec_serializable() && message@.spec_serialize().len() == len,
        r matches Some(bytes) ==> bytes@ == message@.spec_serialize(),
{
    match message.serialize() {
        Some(bytes) => if bytes.len() == len as usize {
            Some(bytes)
        } else {
            None
        },
        None => None,
    }
}

/// What the payload bytes `buf` of a command that is no fragment denote.
///
/// The payload is all of `buf`, and that is the length it is given. A
/// payload shorter than the fields of its kind is truncated. One too long
/// for a 32-bit size to declare mismatches every size; this holds of no
/// buffer that was cut by a command's size.
pub open spec fn spec_plain_payload(buf: Seq<u8>, t: CommandType) -> Result<
    CommandPayloadView,
    DecodeError,
>
    recommends
        t != CommandType::Fragmented,
{
    if t == CommandType::Nothing {
        Ok(CommandPayloadView::Nothing)
    } else if buf.len() > u32::MAX {
        Err(DecodeError::SizeMismatch)
    } else {
        spec_payload_fields(buf, t)
    }
}

/// The payload of kind `t` that the bytes `buf` denote, where they are
/// few enough for a 32-bit length.
pub open spec fn spec_payload_fields(buf: Seq<u8>, t: CommandType) -> Result<
    CommandPayloadView,
    DecodeError,
>
    recommends
        t != CommandType::Fragmented,
        buf.len() <= u32::MAX,
{
    let len = buf.len() as u32;
    match t {
        CommandType::Nothing => Ok(CommandPayloadView::Nothing),
        CommandType::Connect => if buf.len() < 12 {
            Err(DecodeError::TruncatedInput)
        } else {
            Ok(
                CommandPayloadView::Connect(
                    Connect { mtu: u16_at(buf, 2) as u16, channel_count: buf[11], len },
                ),
            )
        },
        CommandType::Ack => if buf.len() < 8 {
            Err(DecodeError::TruncatedInput)
        } else {
            Ok(
                CommandPayloadView::Ack(
                    Ack {
                        acked_seq_num: u32_at(buf, 0) as u32,
                        send_time: u32_at(buf, 4) as u32,
                        len,
                    },
                ),
            )
        },
        CommandType::VerifyConnect => if buf.len() < 2 {
            Err(DecodeError::TruncatedInput)
        } else {
            Ok(CommandPayloadView::VerifyConnect(VerifyConnect { peer_id: u16_at(buf, 0) as u16, len }))
        },
        CommandType::Disconnect => Ok(CommandPayloadView::Disconnect(Disconnect { len })),
        CommandType::Ping => Ok(CommandPayloadView::Ping(Ping { len })),
        CommandType::ServerTime => Ok(CommandPayloadView::ServerTime(ServerTime { len })),
        CommandType::Reliable => match spec_decode(buf) {
            Ok(payload) => Ok(CommandPayloadView::Reliable { payload, len }),
            Err(e) => Err(e),
        },
        _ => match spec_decode(buf) {
            Ok(payload) => Ok(CommandPayloadView::Unreliable { payload, len }),
            Err(e) => Err(e),
        },
    }
}

/// What decoding the payload bytes `buf` of the command with header
/// `header` gives, and what it does to the fragment buffers `state` of the
/// session.
///
/// Of the header only the kind is read, and for a fragment the fragment
/// fields; the size it declares is not: `buf` is the payload. A fragment
/// goes to the buffers; it gives a payload only when it completes its
/// message, which is then decoded.
pub open spec fn spec_payload(
    buf: Seq<u8>,
    header: CommandHeader,
    state: Map<u32, FragmentBufferView>,
) -> (Map<u32, FragmentBufferView>, Result<Option<CommandPayloadView>, DecodeError>) {
    if header.cmd_type == CommandType::Fragmented {
        let (next, out) = spec_ingest(
            state,
            header.start_seq_num->0,
            header.fragment_count->0,
            header.total_len->0,
            header.fragment_offset->0,
            buf,
        );
        match out {
            Err(e) => (next, Err(e)),
            Ok(None) => (next, Ok(None)),
            Ok(Some(message)) => match spec_decode(message) {
                Ok(payload) => (
                    next,
                    Ok(
                        Some(
                            CommandPayloadView::Fragmented { payload, len: message.len() as u32 },
                        ),
                    ),
                ),
                Err(e) => (next, Err(e)),
            },
        }
    } else {
        match spec_plain_payload(buf, header.cmd_type) {
            Ok(p) => (state, Ok(Some(p))),
            Err(e) => (state, Err(e)),
        }
    }
}

/// A payload shorter than the fields of its kind is truncated, whatever
/// size the header declares, and the fragment buffers stay as they were.
pub proof fn lemma_short_payload_is_truncated(
    buf: Seq<u8>,
    header: CommandHeader,
    state: Map<u32, FragmentBufferView>,
)
    requires
        match header.cmd_type {
            CommandType::Ack => buf.len() < 8,
            CommandType::Connect => buf.len() < 12,
            CommandType::VerifyConnect => buf.len() < 2,
            _ => false,
        },
    ensures
        spec_payload(buf, header, state) == (
            state,
            Err::<Option<CommandPayloadView>, DecodeError>(DecodeError::TruncatedInput),
        ),
{
}

/// The payload of an acknowledgement gives back the two numbers that its
/// eight bytes encode, under any header of that kind, and leaves the
/// fragment buffers as they were.
pub proof fn lemma_ack_payload(
    acked_seq_num: u32,
    send_time: u32,
    header: CommandHeader,
    state: Map<u32, FragmentBufferView>,
)
    requires
        header.cmd_type == CommandType::Ack,
    ensures
        spec_payload(
            u32_bytes(acked_seq_num as int) + u32_bytes(send_time as int),
            header,
            state,
        ) == (
            state,
            Ok::<Option<CommandPayloadView>, DecodeError>(
                Some(CommandPayloadView::Ack(Ack { acked_seq_num, send_time, len: 8 })),
            ),
        ),
{
    let p = CommandPayloadView::Ack(Ack { acked_seq_num, send_time, len: 8 });
    assert(p.spec_serialize() =~= u32_bytes(acked_seq_num as int) + u32_bytes(
        send_time as int,
    ));
    lemma_payload_length(p);
    lemma_payload_round_trip(p);
}

/// The payload of a fragment goes to the fragment buffers as it is: what
/// becomes of the buffers, whether anything is yielded and every error of
/// the reassembly are those of [`spec_ingest`], whatever size the header
/// declares. A message that is completed is then decoded.
pub proof fn lemma_fragment_payload(
    buf: Seq<u8>,
    header: CommandHeader,
    state: Map<u32, FragmentBufferView>,
)
    requires
        header.cmd_type == CommandType::Fragmented,
    ensures
        ({
            let (next, out) = spec_ingest(
                state,
                header.start_seq_num->0,
                header.fragment_count->0,
                header.total_len->0,
                header.fragment_offset->0,
                buf,
            );
            let (after, payload) = spec_payload(buf, header, state);
            &&& after == next
            &&& out is Err ==> payload == Err::<Option<CommandPayloadView>, DecodeError>(
                out->Err_0,
            )
            &&& out == Ok::<Option<Seq<u8>>, DecodeError>(None) ==> payload == Ok::<
                Option<CommandPayloadView>,
                DecodeError,
            >(None)
            &&& out matches Ok(Some(message)) ==> payload == match spec_decode(message) {
                Ok(m) => Ok::<Option<CommandPayloadView>, DecodeError>(
                    Some(CommandPayloadView::Fragmented { payload: m, len: message.len() as u32 }),
                ),
                Err(e) => Err::<Option<CommandPayloadView>, DecodeError>(e),
            }
        }),
{
}

/// Decoding a payload does not depend on the size that the header
/// declares.
pub proof fn lemma_payload_ignores_size(
    buf: Seq<u8>,
    header: CommandHeader,
    size: u32,
    state: Map<u32, FragmentBufferView>,
)
    ensures
        spec_payload(buf, CommandHeader { size, ..header }, state) == spec_payload(
            buf,
            header,
            state,
        ),
{
}

/// Whether `r` is what `out` says, and a message it carries is well
/// formed.
pub open spec fn payload_decoded(
    r: Result<Option<CommandPayload>, DecodeError>,
    out: Result<Option<CommandPayloadView>, DecodeError>,
) -> bool {
    match out {
        Ok(Some(p)) => r is Ok && r->Ok_0 is Some && r->Ok_0->0@ == p && r->Ok_0->0.wf(),
        Ok(None) => r is Ok && r->Ok_0 is None,
        Err(e) => r == Err::<Option<CommandPayload>, DecodeError>(e),
    }
}

impl CommandPayload {
    /// Decodes the payload bytes `buf` of the command with header `header`.
    ///
    /// Gives no payload for a fragment that does not yet complete its
    /// message. The result and the effect on `reassembler` are as
    /// [`spec_payload`] says.
    pub fn deserialize(
        buf: &[u8],
        header: &CommandHeader,
        reassembler: &mut FragmentReassembler,
    ) -> (r: Result<Option<CommandPayload>, DecodeError>)
        requires
            header.wf(),
        ensures
            final(reassembler)@ == spec_payload(buf@, *header, old(reassembler)@).0,
            payload_decoded(r, spec_payload(buf@, *header, old(reassembler)@).1),
    {
        match header.cmd_type {
            CommandType::Nothing => Ok(Some(CommandPayload::Nothing)),
            CommandType::Fragmented => {
                let message = match reassembler.ingest(header, buf) {
                    Ok(Some(m)) => m,
                    Ok(None) => {
                        return Ok(None);
                    },
                    Err(e) => {
                        return Err(e);
                    },
                };
                let whole: u32 = message.len() as u32;
                match PhotonCommand::decode(message.as_slice()) {
                    Ok(payload) => Ok(
                        Some(CommandPayload::Fragmented(Fragmented { payload, len: whole })),
                    ),
                    Err(e) => Err(e),
                }
            },
            kind => {
                if buf.len() > 0xffff_ffff {
                    return Err(DecodeError::SizeMismatch);
                }
                match Self::fields(buf, kind, buf.len() as u32) {
                    Ok(p) => Ok(Some(p)),
                    Err(e) => Err(e),
                }
            },
        }
    }

    /// Reads the fields of a payload of kind `t` out of its bytes.
    fn fields(buf: &[u8], t: CommandType, len: u32) -> (r: Result<CommandPayload, DecodeError>)
        requires
            t != CommandType::Fragmented,
            len as int == buf@.len(),
        ensures
            match spec_payload_fields(buf@, t) {
                Ok(p) => r is Ok && r->Ok_0@ == p && r->Ok_0.wf(),
                Err(e) => r == Err::<CommandPayload, DecodeError>(e),
            },
    {
        match t {
            CommandType::Nothing => Ok(CommandPayload::Nothing),
            CommandType::Connect => {
                if buf.len() < 12 {
                    return Err(DecodeError::TruncatedInput);
                }
                let mtu = match read_u16(buf, 2) {
                    Ok(v) => v,
                    Err(e) => {
                        return Err(e);
                    },
                };
                Ok(CommandPayload::Connect(Connect { mtu, channel_count: buf[11], len }))
            },
            CommandType::Ack => {
                if buf.len() < 8 {
                    return Err(DecodeError::TruncatedInput);
                }
                let acked_seq_num = match read_u32(buf, 0) {
                    Ok(v) => v,
                    Err(e) => {
                        return Err(e);
                    },
                };
                let send_time = match read_u32(buf, 4) {
                    Ok(v) => v,
                    Err(e) => {
                        return Err(e);
                    },
                };
                Ok(CommandPayload::Ack(Ack { acked_seq_num, send_time, len }))
            },
            CommandType::VerifyConnect => {
                let peer_id = match read_u16(buf, 0) {
                    Ok(v) => v,
                    Err(e) => {
                        return Err(e);
                    },
                };
                Ok(CommandPayload::VerifyConnect(VerifyConnect { peer_id, len }))
            },
            CommandType::Disconnect => Ok(CommandPayload::Disconnect(Disconnect { len })),
            CommandType::Ping => Ok(CommandPayload::Ping(Ping { len })),
            CommandType::ServerTime => Ok(CommandPayload::ServerTime(ServerTime { len })),
            CommandType::Reliable => match PhotonCommand::decode(buf) {
                Ok(payload) => Ok(CommandPayload::Reliable(Reliable { payload, len })),
                Err(e) => Err(e),
            },
            _ => match PhotonCommand::decode(buf) {
                Ok(payload) => Ok(CommandPayload::Unreliable(Unreliable { payload, len })),
                Err(e) => Err(e),
            },
        }
    }

    /// The bytes of the payload on the wire; nothing for a payload that
    /// has no wire form.
    pub fn serialize(&self) -> (r: Option<Vec<u8>>)
        ensures
            r is Some <==> self@.spec_serializable(),
            r matches Some(bytes) ==> bytes@ == self@.spec_serialize(),
    {
        let mut out: Vec<u8> = Vec::new();
        match self {
            CommandPayload::Nothing => {},
            CommandPayload::Ack(p) => {
                if p.len < 8 {
                    return None;
                }
                push_u32(&mut out, p.acked_seq_num);
                push_u32(&mut out, p.send_time);
                push_zeros(&mut out, (p.len - 8) as usize);
            },
            CommandPayload::Connect(p) => {
                if p.len < 12 {
                    return None;
                }
                push_zeros(&mut out, 2);
                push_u16(&mut out, p.mtu);
                push_zeros(&mut out, 7);
                out.push(p.channel_count);
                push_zeros(&mut out, (p.len - 12) as usize);
            },
            CommandPayload::VerifyConnect(p) => {
                if p.len < 2 {
                    return None;
                }
                push_u16(&mut out, p.peer_id);
                push_zeros(&mut out, (p.len - 2) as usize);
            },
            CommandPayload::Ping(p) => {
                push_zeros(&mut out, p.len as usize);
            },
            CommandPayload::Disconnect(p) => {
                push_zeros(&mut out, p.len as usize);
            },
            CommandPayload::ServerTime(p) => {
                push_zeros(&mut out, p.len as usize);
            },
            CommandPayload::Reliable(p) => {
                return message_bytes(&p.payload, p.len);
            },
            CommandPayload::Unreliable(p) => {
                return message_bytes(&p.payload, p.len);
            },
            CommandPayload::Fragmented(p) => {
                return message_bytes(&p.payload, p.len);
            },
        }
        Some(out)
    }

    /// The length in bytes that the payload accounts for in the size of
    /// its command.
    pub fn len(&self) -> (r: u32)
        ensures
            r == self@.spec_len(),
    {
        match self {
            CommandPayload::Nothing => 0,
            CommandPayload::Connect(p) => p.len,
            CommandPayload::Ack(p) => p.len,
            CommandPayload::VerifyConnect(p) => p.len,
            CommandPayload::Disconnect(p) => p.len,
            CommandPayload::Ping(p) => p.len,
            CommandPayload::Reliable(p) => p.len,
            CommandPayload::Unreliable(p) => p.len,
            CommandPayload::Fragmented(p) => p.len,
            CommandPayload::ServerTime(p) => p.len,
        }
    }
}

} // verus!
