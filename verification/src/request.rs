//! Commands, and the packets that a client sends.

use vstd::prelude::*;
use crate::error::DecodeError;
use crate::fragment::{FragmentBufferView, FragmentReassembler};
use crate::header::CommandHeader;
use crate::payload::{lemma_payload_length, lemma_payload_round_trip, spec_payload, CommandPayload,
    CommandPayloadView};
use crate::typ::CommandType;
use crate::wire::{read_u16, read_u32, u16_at, u32_at};

verus! {

/// One command of a packet: a header and, unless the command is a fragment
/// of a message that is not complete yet, a payload.
#[derive(Debug, Clone, PartialEq, Eq)]
pub struct Command {
    pub header: CommandHeader,
    pub payload: Option<CommandPayload>,
}

/// What a [`Command`] denotes.
pub struct CommandView {
    pub header: CommandHeader,
    pub payload: Option<CommandPayloadView>,
}

impl View for Command {
    type V = CommandView;

    open spec fn view(&self) -> CommandView {
        CommandView {
            header: self.header,
            payload: match self.payload {
                Some(p) => Some(p@),
                None => None,
            },
        }
    }
}

impl Command {
    /// The header is well formed, and so is a message that the payload
    /// carries.
    pub open spec fn wf(self) -> bool {
        &&& self.header.wf()
        &&& self.payload matches Some(p) ==> p.wf()
    }
}

/// Every command of `cmds` is well formed.
pub open spec fn commands_wf(cmds: Seq<Command>) -> bool {
    forall|i: int| 0 <= i < cmds.len() ==> (#[trigger] cmds[i]).wf()
}

impl CommandView {
    /// Whether the command has a wire form: its header is well formed,
    /// its payload is there and has a wire form, and the header's size is
    /// the length of the two together.
    pub open spec fn spec_serializable(self) -> bool {
        &&& self.header.wf()
        &&& self.payload matches Some(p)
        &&& p.spec_serializable()
        &&& self.header.size as int == self.header.spec_len() + p.spec_serialize().len()
    }

    /// The bytes of the command on the wire: its header, then its
    /// payload.
    pub open spec fn spec_serialize(self) -> Seq<u8> {
        self.header.spec_serialize() + self.payload->0.spec_serialize()
    }
}

/// What decoding the command at `offset` in `buf` gives, and what it does
/// to the fragment buffers `state` of the session.
///
/// The header's size must reach at least over the header, else the sizes
/// mismatch, and not beyond the buffer, else the input is truncated. The
/// bytes between the header and the end of the command are the payload.
pub open spec fn spec_command(buf: Seq<u8>, offset: int, state: Map<u32, FragmentBufferView>) -> (
    Map<u32, FragmentBufferView>,
    Result<CommandView, DecodeError>,
) {
    match CommandHeader::spec_deserialize(buf, offset) {
        Err(e) => (state, Err(e)),
        Ok((header, n)) => if (header.size as int) < n {
            (state, Err(DecodeError::SizeMismatch))
        } else if offset + header.size > buf.len() {
            (state, Err(DecodeError::TruncatedInput))
        } else {
            let (next, out) = spec_payload(
                buf.subrange(offset + n, offset + header.size),
                header,
                state,
            );
            match out {
                Ok(payload) => (next, Ok(CommandView { header, payload })),
                Err(e) => (next, Err(e)),
            }
        },
    }
}

/// What decoding the commands from `offset` to the end of `buf` gives,
/// when `acc` holds those decoded so far: each command takes as many
/// bytes as its header's size says, and one without a payload is left
/// out. The first error ends the decoding.
pub open spec fn spec_commands(
    buf: Seq<u8>,
    offset: int,
    state: Map<u32, FragmentBufferView>,
    acc: Seq<CommandView>,
) -> (Map<u32, FragmentBufferView>, Result<Seq<CommandView>, DecodeError>)
    decreases buf.len() - offset,
{
    if offset >= buf.len() {
        (state, Ok(acc))
    } else {
        let (next, out) = spec_command(buf, offset, state);
        match out {
            Err(e) => (next, Err(e)),
            Ok(c) => spec_commands(
                buf,
                offset + c.header.size,
                next,
                if c.payload is Some {
                    acc.push(c)
                } else {
                    acc
                },
            ),
        }
    }
}

/// A command whose header declares more bytes than the buffer holds is
/// truncated, and the fragment buffers are left as they were.
pub proof fn lemma_short_command_is_truncated(
    buf: Seq<u8>,
    offset: int,
    state: Map<u32, FragmentBufferView>,
)
    requires
        0 <= offset,
        CommandHeader::spec_deserialize(buf, offset) matches Ok((header, n)) && n <= header.size
            && offset + header.size > buf.len(),
    ensures
        spec_command(buf, offset, state) == (
            state,
            Err::<CommandView, DecodeError>(DecodeError::TruncatedInput),
        ),
{
}

/// A packet that ends inside a command is truncated as a whole: where the
/// first command declares more bytes than the buffer holds, decoding the
/// commands fails with that error.
pub proof fn lemma_short_packet_is_truncated(
    buf: Seq<u8>,
    offset: int,
    state: Map<u32, FragmentBufferView>,
)
    requires
        0 <= offset < buf.len(),
        offset + 12 > buf.len() || (CommandHeader::spec_deserialize(buf, offset) matches Ok(
            (header, n),
        ) && n <= header.size && offset + header.size > buf.len()),
    ensures
        spec_commands(buf, offset, state, Seq::empty()) == (
            state,
            Err::<Seq<CommandView>, DecodeError>(DecodeError::TruncatedInput),
        ),
{
}

impl CommandView {
    /// Whether the command can be written and read back: it has a wire
    /// form, its payload can be written and read back and is of the
    /// header's kind, and it is no fragment.
    pub open spec fn spec_encodable(self) -> bool {
        &&& self.spec_serializable()
        &&& self.payload->0.spec_encodable()
        &&& self.payload->0.spec_kind() == self.header.cmd_type
        &&& self.header.cmd_type != CommandType::Fragmented
    }
}

/// Decoding the bytes of a command gives the command back and leaves the
/// fragment buffers as they were, whatever bytes stand before and after
/// it; and the command is as long as its header's size says.
pub proof fn lemma_command_round_trip(
    c: CommandView,
    before: Seq<u8>,
    after: Seq<u8>,
    state: Map<u32, FragmentBufferView>,
)
    requires
        c.spec_encodable(),
    ensures
        c.spec_serialize().len() == c.header.size,
        c.header.size >= 12,
        spec_command(before + c.spec_serialize() + after, before.len() as int, state) == (
            state,
            Ok::<CommandView, DecodeError>(c),
        ),
{
    let payload = c.payload->0;
    let head = c.header.spec_serialize();
    let body = payload.spec_serialize();
    let buf = before + c.spec_serialize() + after;
    let at = before.len() as int;
    let n = head.len() as int;
    c.header.lemma_round_trip(before, body + after);
    lemma_payload_length(payload);
    lemma_payload_round_trip(payload);
    assert(buf.subrange(at + n, at + c.header.size) =~= body);
}

/// What a list of commands denotes.
pub open spec fn commands_view(cmds: Seq<Command>) -> Seq<CommandView> {
    cmds.map_values(|c: Command| c@)
}

impl Command {
    /// A command of `header` and `payload`, with the payload's length
    /// added to the header's size.
    pub fn new(header: CommandHeader, payload: CommandPayload) -> (r: Command)
        requires
            header.size + payload@.spec_len() <= u32::MAX,
        ensures
            r.header == (CommandHeader {
                size: (header.size + payload@.spec_len()) as u32,
                ..header
            }),
            r.payload == Some(payload),
    {
        let mut header = header;
        header.size = header.size + payload.len();
        Command { header, payload: Some(payload) }
    }

    /// Decodes the command at `offset` in `buf`; a fragment goes to
    /// `reassembler`.
    ///
    /// The result and the effect on `reassembler` are as [`spec_command`]
    /// says.
    pub fn deserialize(buf: &[u8], offset: usize, reassembler: &mut FragmentReassembler) -> (r:
        Result<Command, DecodeError>)
        ensures
            final(reassembler)@ == spec_command(buf@, offset as int, old(reassembler)@).0,
            match spec_command(buf@, offset as int, old(reassembler)@).1 {
                Ok(c) => r is Ok && r->Ok_0@ == c && r->Ok_0.wf() && c.header.size >= 12
                    && offset + c.header.size <= buf@.len(),
                Err(e) => r == Err::<Command, DecodeError>(e),
            },
    {
        let (header, n) = match CommandHeader::deserialize(buf, offset) {
            Ok(p) => p,
            Err(e) => {
                return Err(e);
            },
        };
        let size = header.size as usize;
        if size < n {
            return Err(DecodeError::SizeMismatch);
        }
        if size > buf.len() - offset {
            return Err(DecodeError::TruncatedInput);
        }
        let body = vstd::slice::slice_subrange(buf, offset + n, offset + size);
        match CommandPayload::deserialize(body, &header, reassembler) {
            Ok(payload) => Ok(Command { header, payload }),
            Err(e) => Err(e),
        }
    }

    /// The bytes of the command on the wire: its header, then its
    /// payload; nothing for a command that has no wire form.
    pub fn serialize(&self) -> (r: Option<Vec<u8>>)
        ensures
            r is Some <==> self@.spec_serializable(),
            r matches Some(bytes) ==> bytes@ == self@.spec_serialize(),
    {
        if !self.header.is_well_formed() {
            return None;
        }
        let body = match &self.payload {
            Some(p) => match p.serialize() {
                Some(b) => b,
                None => {
                    return None;
                },
            },
            None => {
                return None;
            },
        };
        let size = self.header.size as usize;
        let header_len = self.header.len();
        if size < header_len || size - header_len != body.len() {
            return None;
        }
        let mut out = self.header.serialize();
        let mut body = body;
        out.append(&mut body);
        Some(out)
    }

    /// The length in bytes of the command on the wire, as its header
    /// declares it.
    pub fn len(&self) -> (r: u32)
        ensures
            r == self.header.size,
    {
        self.header.size
    }
}

/// Decodes the commands from `offset` to the end of `buf`.
pub(crate) fn commands_at(buf: &[u8], offset: usize, reassembler: &mut FragmentReassembler) -> (r:
    Result<Vec<Command>, DecodeError>)
    ensures
        final(reassembler)@ == spec_commands(
            buf@,
            offset as int,
            old(reassembler)@,
            Seq::empty(),
        ).0,
        match spec_commands(buf@, offset as int, old(reassembler)@, Seq::empty()).1 {
            Ok(cmds) => r is Ok && commands_view(r->Ok_0@) == cmds && commands_wf(r->Ok_0@),
            Err(e) => r == Err::<Vec<Command>, DecodeError>(e),
        },
{
    let ghost goal = spec_commands(buf@, offset as int, old(reassembler)@, Seq::empty());
    let mut cmds: Vec<Command> = Vec::new();
    let mut at: usize = offset;
    assert(commands_view(cmds@) =~= Seq::empty());
    while at < buf.len()
        invariant
            goal == spec_commands(buf@, offset as int, old(reassembler)@, Seq::empty()),
            goal == spec_commands(buf@, at as int, reassembler@, commands_view(cmds@)),
            commands_wf(cmds@),
        decreases buf@.len() - at,
    {
        let cmd = match Command::deserialize(buf, at, reassembler) {
            Ok(c) => c,
            Err(e) => {
                return Err(e);
            },
        };
        at = at + cmd.len() as usize;
        if cmd.payload.is_some() {
            let ghost before = commands_view(cmds@);
            let ghost cv = cmd@;
            cmds.push(cmd);
            assert(commands_view(cmds@) =~= before.push(cv));
        }
    }
    Ok(cmds)
}

/// A packet from a client.
#[derive(Debug, PartialEq, Eq)]
pub struct Request {
    pub peer_id: u16,
    pub use_crc: bool,
    /// The number of commands that the packet declares.
    pub cmd_count: u8,
    pub time: u32,
    pub challenge: u32,
    /// The commands that gave a payload, in their order.
    pub cmds: Vec<Command>,
}

/// What a [`Request`] denotes.
pub struct RequestView {
    pub peer_id: u16,
    pub use_crc: bool,
    pub cmd_count: u8,
    pub time: u32,
    pub challenge: u32,
    pub cmds: Seq<CommandView>,
}

impl View for Request {
    type V = RequestView;

    open spec fn view(&self) -> RequestView {
        RequestView {
            peer_id: self.peer_id,
            use_crc: self.use_crc,
            cmd_count: self.cmd_count,
            time: self.time,
            challenge: self.challenge,
            cmds: commands_view(self.cmds@),
        }
    }
}

/// What decoding a client's packet gives, and what it does to the
/// fragment buffers `state` of the session: a twelve-byte envelope, then
/// commands to the end of the buffer.
pub open spec fn spec_request(buf: Seq<u8>, state: Map<u32, FragmentBufferView>) -> (
    Map<u32, FragmentBufferView>,
    Result<RequestView, DecodeError>,
) {
    if buf.len() < 12 {
        (state, Err(DecodeError::TruncatedInput))
    } else {
        let (next, out) = spec_commands(buf, 12, state, Seq::empty());
        match out {
            Err(e) => (next, Err(e)),
            Ok(cmds) => (
                next,
                Ok(
                    RequestView {
                        peer_id: u16_at(buf, 0) as u16,
                        use_crc: buf[2] != 0,
                        cmd_count: buf[3],
                        time: u32_at(buf, 4) as u32,
                        challenge: u32_at(buf, 8) as u32,
                        cmds,
                    },
                ),
            ),
        }
    }
}

impl Request {
    /// Decodes a client's packet; fragments go to `reassembler`, which
    /// belongs to the session that the packet came from.
    ///
    /// The result and the effect on `reassembler` are as [`spec_request`]
    /// says. After an error the commands before it have had their effect on
    /// `reassembler`; the rest of the packet is not looked at.
    pub fn deserialize(buf: &[u8], reassembler: &mut FragmentReassembler) -> (r: Result<
        Request,
        DecodeError,
    >)
        ensures
            final(reassembler)@ == spec_request(buf@, old(reassembler)@).0,
            match spec_request(buf@, old(reassembler)@).1 {
                Ok(v) => r is Ok && r->Ok_0@ == v && commands_wf(r->Ok_0.cmds@),
                Err(e) => r == Err::<Request, DecodeError>(e),
            },
    {
        if buf.len() < 12 {
            return Err(DecodeError::TruncatedInput);
        }
        let peer_id = match read_u16(buf, 0) {
            Ok(v) => v,
            Err(e) => {
                return Err(e);
            },
        };
        let time = match read_u32(buf, 4) {
            Ok(v) => v,
            Err(e) => {
                return Err(e);
            },
        };
        let challenge = match read_u32(buf, 8) {
            Ok(v) => v,
            Err(e) => {
                return Err(e);
            },
        };
        let cmds = match commands_at(buf, 12, reassembler) {
            Ok(c) => c,
            Err(e) => {
                return Err(e);
            },
        };
        Ok(Request { peer_id, use_crc: buf[2] != 0, cmd_count: buf[3], time, challenge, cmds })
    }
}

} // verus!
