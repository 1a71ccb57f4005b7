//! The packets that the server sends.

use vstd::prelude::*;
use crate::error::DecodeError;
use crate::fragment::{FragmentBufferView, FragmentReassembler};
use crate::request::{commands_at, commands_view, commands_wf, lemma_command_round_trip,
    spec_command, spec_commands, Command,
    CommandView};
use crate::wire::{lemma_u16_at_encoded, lemma_u16_bytes_len, lemma_u32_at_encoded,
    lemma_u32_bytes_len, push_u16, push_u32, read_u16, read_u32, u16_at, u16_bytes, u32_at,
    u32_bytes};

verus! {

/// The value of the reserved field of every reply that is built here.
pub const RESERVED_SENTINEL: u16 = 0x1337;

/// What follows the commands of a reply.
#[derive(Debug, Clone, Copy, PartialEq, Eq, Structural)]
pub enum AuxillaryProperty {
    Nothing,
    Encrypted,
    Crc,
}

impl AuxillaryProperty {
    /// The wire byte of the property.
    pub open spec fn spec_code(self) -> u8 {
        match self {
            AuxillaryProperty::Nothing => 0,
            AuxillaryProperty::Encrypted => 1,
            AuxillaryProperty::Crc => 204,
        }
    }

    /// The property that a wire byte stands for, if it stands for one.
    pub open spec fn spec_from_code(val: u8) -> Option<AuxillaryProperty> {
        match val {
            0 => Some(AuxillaryProperty::Nothing),
            1 => Some(AuxillaryProperty::Encrypted),
            204 => Some(AuxillaryProperty::Crc),
            _ => None,
        }
    }

    /// The wire byte of the property.
    pub fn to_u8(self) -> (r: u8)
        ensures
            r == self.spec_code(),
    {
        match self {
            AuxillaryProperty::Nothing => 0,
            AuxillaryProperty::Encrypted => 1,
            AuxillaryProperty::Crc => 204,
        }
    }

    /// Decodes a wire byte; a byte outside the three codes is an error
    /// that carries the byte.
    pub fn from_u8(val: u8) -> (r: Result<AuxillaryProperty, DecodeError>)
        ensures
            r == match Self::spec_from_code(val) {
                Some(p) => Ok::<AuxillaryProperty, DecodeError>(p),
                None => Err::<AuxillaryProperty, DecodeError>(DecodeError::UnknownTag(val)),
            },
    {
        match val {
            0 => Ok(AuxillaryProperty::Nothing),
            1 => Ok(AuxillaryProperty::Encrypted),
            204 => Ok(AuxillaryProperty::Crc),
            _ => Err(DecodeError::UnknownTag(val)),
        }
    }
}

impl Default for AuxillaryProperty {
    fn default() -> (r: Self)
        ensures
            r == AuxillaryProperty::Nothing,
    {
        AuxillaryProperty::Nothing
    }
}

impl From<AuxillaryProperty> for u8 {
    fn from(value: AuxillaryProperty) -> (r: u8) {
        value.to_u8()
    }
}

impl vstd::std_specs::convert::FromSpecImpl<AuxillaryProperty> for u8 {
    open spec fn obeys_from_spec() -> bool {
        true
    }

    open spec fn from_spec(value: AuxillaryProperty) -> u8 {
        value.spec_code()
    }
}

/// A packet from the server.
#[derive(Debug, Clone, PartialEq, Eq)]
pub struct Reply {
    /// A reserved field.
    pub unused: u16,
    pub aux_property: AuxillaryProperty,
    /// The number of commands that the packet declares.
    pub cmd_count: u8,
    pub send_time: u32,
    pub challenge: u32,
    pub cmds: Vec<Command>,
    /// Reserved for encryption; never present.
    pub iv: Option<[u8; 16]>,
    /// Reserved for a checksum; never present.
    pub crc: Option<u32>,
}

impl Default for Reply {
    fn default() -> (r: Self)
        ensures
            r.unused == 0,
            r.aux_property == AuxillaryProperty::Nothing,
            r.cmd_count == 0,
            r.send_time == 0,
            r.challenge == 0,
            r.cmds@ == Seq::<Command>::empty(),
            r.iv is None,
            r.crc is None,
    {
        Reply {
            unused: 0,
            aux_property: AuxillaryProperty::Nothing,
            cmd_count: 0,
            send_time: 0,
            challenge: 0,
            cmds: Vec::new(),
            iv: None,
            crc: None,
        }
    }
}

/// What a [`Reply`] denotes.
pub struct ReplyView {
    pub unused: u16,
    pub aux_property: AuxillaryProperty,
    pub cmd_count: u8,
    pub send_time: u32,
    pub challenge: u32,
    pub cmds: Seq<CommandView>,
}

impl View for Reply {
    type V = ReplyView;

    open spec fn view(&self) -> ReplyView {
        ReplyView {
            unused: self.unused,
            aux_property: self.aux_property,
            cmd_count: self.cmd_count,
            send_time: self.send_time,
            challenge: self.challenge,
            cmds: commands_view(self.cmds@),
        }
    }
}

/// The bytes of the commands `cmds` on the wire, one after the other.
pub open spec fn spec_commands_bytes(cmds: Seq<CommandView>) -> Seq<u8>
    decreases cmds.len(),
{
    if cmds.len() == 0 {
        Seq::empty()
    } else {
        spec_commands_bytes(cmds.drop_last()) + cmds.last().spec_serialize()
    }
}

/// Every command of `cmds` has a wire form.
pub open spec fn commands_serializable(cmds: Seq<CommandView>) -> bool {
    forall|i: int| 0 <= i < cmds.len() ==> (#[trigger] cmds[i]).spec_serializable()
}

impl ReplyView {
    /// The twelve bytes that open the reply on the wire.
    pub open spec fn spec_envelope(self) -> Seq<u8> {
        u16_bytes(self.unused as int) + seq![self.aux_property.spec_code(), self.cmd_count]
            + u32_bytes(self.send_time as int) + u32_bytes(self.challenge as int)
    }

    /// The bytes of the reply on the wire: the envelope, then the
    /// commands.
    pub open spec fn spec_serialize(self) -> Seq<u8> {
        self.spec_envelope() + spec_commands_bytes(self.cmds)
    }
}

/// What decoding a server's packet gives, and what it does to the
/// fragment buffers `state` of the session: a twelve-byte envelope, then
/// commands to the end of the buffer.
pub open spec fn spec_reply(buf: Seq<u8>, state: Map<u32, FragmentBufferView>) -> (
    Map<u32, FragmentBufferView>,
    Result<ReplyView, DecodeError>,
) {
    if buf.len() < 12 {
        (state, Err(DecodeError::TruncatedInput))
    } else {
        match AuxillaryProperty::spec_from_code(buf[2]) {
            None => (state, Err(DecodeError::UnknownTag(buf[2]))),
            Some(aux_property) => {
                let (next, out) = spec_commands(buf, 12, state, Seq::empty());
                match out {
                    Err(e) => (next, Err(e)),
                    Ok(cmds) => (
                        next,
                        Ok(
                            ReplyView {
                                unused: u16_at(buf, 0) as u16,
                                aux_property,
                                cmd_count: buf[3],
                                send_time: u32_at(buf, 4) as u32,
                                challenge: u32_at(buf, 8) as u32,
                                cmds,
                            },
                        ),
                    ),
                }
            },
        }
    }
}

/// Every command of `cmds` can be written and read back.
pub open spec fn commands_encodable(cmds: Seq<CommandView>) -> bool {
    forall|i: int| 0 <= i < cmds.len() ==> (#[trigger] cmds[i]).spec_encodable()
}

/// The bytes of the first commands open the bytes of all of them.
proof fn lemma_commands_prefix(cmds: Seq<CommandView>, n: int)
    requires
        0 <= n <= cmds.len(),
    ensures
        spec_commands_bytes(cmds.subrange(0, n)).len() <= spec_commands_bytes(cmds).len(),
        spec_commands_bytes(cmds).subrange(
            0,
            spec_commands_bytes(cmds.subrange(0, n)).len() as int,
        ) == spec_commands_bytes(cmds.subrange(0, n)),
    decreases cmds.len() - n,
{
    let all = spec_commands_bytes(cmds);
    let here = spec_commands_bytes(cmds.subrange(0, n));
    if n < cmds.len() {
        lemma_commands_prefix(cmds, n + 1);
        let next = spec_commands_bytes(cmds.subrange(0, n + 1));
        assert(cmds.subrange(0, n + 1).drop_last() =~= cmds.subrange(0, n));
        assert(all.subrange(0, here.len() as int) =~= all.subrange(
            0,
            next.len() as int,
        ).subrange(0, here.len() as int));
    } else {
        assert(cmds.subrange(0, n) =~= cmds);
    }
}

/// Where a command with a payload decodes at `at`, decoding the commands
/// from `at` goes on after it with the command added.
proof fn lemma_commands_step(
    buf: Seq<u8>,
    at: int,
    state: Map<u32, FragmentBufferView>,
    sofar: Seq<CommandView>,
    c: CommandView,
)
    requires
        0 <= at < buf.len(),
        c.payload is Some,
        spec_command(buf, at, state) == (state, Ok::<CommandView, DecodeError>(c)),
    ensures
        spec_commands(buf, at, state, sofar) == spec_commands(
            buf,
            at + c.header.size,
            state,
            sofar.push(c),
        ),
{
}

/// The bytes of the commands up to and with the `done`-th stand in the
/// bytes of all the commands, the `done`-th last.
proof fn lemma_commands_layout(cmds: Seq<CommandView>, before: Seq<u8>, done: int)
    requires
        0 <= done < cmds.len(),
    ensures
        ({
            let all = spec_commands_bytes(cmds);
            let here = spec_commands_bytes(cmds.subrange(0, done));
            let next = spec_commands_bytes(cmds.subrange(0, done + 1));
            let rest = all.subrange(next.len() as int, all.len() as int);
            &&& next == here + cmds[done].spec_serialize()
            &&& next.len() <= all.len()
            &&& before + all == (before + here) + cmds[done].spec_serialize() + rest
        }),
{
    let all = spec_commands_bytes(cmds);
    let sofar = cmds.subrange(0, done);
    let upto = cmds.subrange(0, done + 1);
    let next = spec_commands_bytes(upto);
    assert(upto.drop_last() =~= sofar);
    lemma_commands_prefix(cmds, done + 1);
    let rest = all.subrange(next.len() as int, all.len() as int);
    assert(all =~= all.subrange(0, next.len() as int) + rest);
}

/// Decoding the commands from the `done`-th on, with those before it
/// decoded already, gives all the commands and leaves the fragment
/// buffers as they were.
proof fn lemma_commands_round_trip(
    cmds: Seq<CommandView>,
    before: Seq<u8>,
    state: Map<u32, FragmentBufferView>,
    done: int,
)
    requires
        commands_encodable(cmds),
        0 <= done <= cmds.len(),
    ensures
        spec_commands(
            before + spec_commands_bytes(cmds),
            (before.len() + spec_commands_bytes(cmds.subrange(0, done)).len()) as int,
            state,
            cmds.subrange(0, done),
        ) == (state, Ok::<Seq<CommandView>, DecodeError>(cmds)),
    decreases cmds.len() - done,
{
    let all = spec_commands_bytes(cmds);
    let buf = before + all;
    let sofar = cmds.subrange(0, done);
    let here = spec_commands_bytes(sofar);
    let at = (before.len() + here.len()) as int;
    if done == cmds.len() {
        assert(sofar =~= cmds);
    } else {
        let c = cmds[done];
        let upto = cmds.subrange(0, done + 1);
        let next = spec_commands_bytes(upto);
        let rest = all.subrange(next.len() as int, all.len() as int);
        lemma_commands_layout(cmds, before, done);
        lemma_command_round_trip(c, before + here, rest, state);
        assert(sofar.push(c) =~= upto);
        lemma_commands_step(buf, at, state, sofar, c);
        lemma_commands_round_trip(cmds, before, state, done + 1);
    }
}

/// Decoding the bytes of a reply gives the reply back and leaves the
/// fragment buffers as they were.
pub proof fn lemma_reply_round_trip(r: ReplyView, state: Map<u32, FragmentBufferView>)
    requires
        commands_encodable(r.cmds),
    ensures
        spec_reply(r.spec_serialize(), state) == (state, Ok::<ReplyView, DecodeError>(r)),
{
    let envelope = r.spec_envelope();
    let buf = r.spec_serialize();
    lemma_u16_bytes_len(r.unused as int);
    lemma_u32_bytes_len(r.send_time as int);
    lemma_u32_bytes_len(r.challenge as int);
    assert(buf.subrange(0, 2) =~= u16_bytes(r.unused as int));
    lemma_u16_at_encoded(buf, 0, r.unused as int);
    assert(buf.subrange(4, 8) =~= u32_bytes(r.send_time as int));
    lemma_u32_at_encoded(buf, 4, r.send_time as int);
    assert(buf.subrange(8, 12) =~= u32_bytes(r.challenge as int));
    lemma_u32_at_encoded(buf, 8, r.challenge as int);
    assert(r.cmds.subrange(0, 0) =~= Seq::<CommandView>::empty());
    lemma_commands_round_trip(r.cmds, envelope, state, 0);
}

impl Reply {
    /// A reply that carries `cmds`, with the reserved field at its
    /// sentinel value and nothing after the commands.
    pub fn new(send_time: u32, challenge: u32, cmds: Vec<Command>) -> (r: Reply)
        requires
            cmds@.len() <= 255,
        ensures
            r.unused == RESERVED_SENTINEL,
            r.aux_property == AuxillaryProperty::Nothing,
            r.cmd_count as int == cmds@.len(),
            r.send_time == send_time,
            r.challenge == challenge,
            r.cmds == cmds,
            r.iv is None,
            r.crc is None,
    {
        let cmd_count = cmds.len() as u8;
        Reply {
            unused: RESERVED_SENTINEL,
            aux_property: AuxillaryProperty::Nothing,
            cmd_count,
            send_time,
            challenge,
            cmds,
            iv: None,
            crc: None,
        }
    }

    /// Encodes the reply: the twelve-byte envelope, then each command;
    /// nothing where a command has no wire form. The fields reserved for
    /// encryption and checksum are not written.
    pub fn serialize(&self) -> (r: Option<Vec<u8>>)
        ensures
            r is Some <==> commands_serializable(self@.cmds),
            r matches Some(bytes) ==> bytes@ == self@.spec_serialize(),
    {
        let mut out: Vec<u8> = Vec::new();
        push_u16(&mut out, self.unused);
        out.push(self.aux_property.to_u8());
        out.push(self.cmd_count);
        push_u32(&mut out, self.send_time);
        push_u32(&mut out, self.challenge);
        let ghost all = commands_view(self.cmds@);
        let mut i: usize = 0;
        while i < self.cmds.len()
            invariant
                i <= self.cmds@.len(),
                all == commands_view(self.cmds@),
                all == self@.cmds,
                forall|j: int| 0 <= j < i ==> (#[trigger] all[j]).spec_serializable(),
                out@ == self@.spec_envelope() + spec_commands_bytes(all.subrange(0, i as int)),
            decreases self.cmds@.len() - i,
        {
            let mut bytes = match self.cmds[i].serialize() {
                Some(b) => b,
                None => {
                    assert(!all[i as int].spec_serializable());
                    return None;
                },
            };
            let ghost prefix = all.subrange(0, i as int);
            let ghost next = all.subrange(0, i + 1);
            assert(next.drop_last() =~= prefix);
            out.append(&mut bytes);
            i += 1;
        }
        assert(all.subrange(0, i as int) =~= all);
        Some(out)
    }

    /// Decodes a server's packet; fragments go to `reassembler`.
    ///
    /// The result and the effect on `reassembler` are as [`spec_reply`]
    /// says. The fields reserved for encryption and checksum are absent.
    pub fn deserialize(buf: &[u8], reassembler: &mut FragmentReassembler) -> (r: Result<
        Reply,
        DecodeError,
    >)
        ensures
            final(reassembler)@ == spec_reply(buf@, old(reassembler)@).0,
            match spec_reply(buf@, old(reassembler)@).1 {
                Ok(v) => r is Ok && r->Ok_0@ == v && commands_wf(r->Ok_0.cmds@) && r->Ok_0.iv is None
                    && r->Ok_0.crc is None,
                Err(e) => r == Err::<Reply, DecodeError>(e),
            },
    {
        if buf.len() < 12 {
            return Err(DecodeError::TruncatedInput);
        }
        let aux_property = match AuxillaryProperty::from_u8(buf[2]) {
            Ok(p) => p,
            Err(e) => {
                return Err(e);
            },
        };
        let unused = match read_u16(buf, 0) {
            Ok(v) => v,
            Err(e) => {
                return Err(e);
            },
        };
        let send_time = match read_u32(buf, 4) {
            Ok(v) => v,
            Err(e) => {
                return Err(e);
            },
        };
        let challenge = match read_u32(buf, 8) {
            Ok(v) => v,
            Err(e) => {
                return Err(e);
            },
        };
        let cmds = match commands_at(buf, 12, reassembler) {
            Ok(c) => c,
            Err(e) => {
                return Err(e);
            },
        };
        Ok(
            Reply {
                unused,
                aux_property,
                cmd_count: buf[3],
                send_time,
                challenge,
                cmds,
                iv: None,
                crc: None,
            },
        )
    }
}

} // verus!
