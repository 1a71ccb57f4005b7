//! Command headers: a fixed 12-byte prefix, then 4 more bytes for an
//! unreliable command, 20 more for a fragment, none for the other kinds.

use vstd::prelude::*;
use crate::error::DecodeError;
use crate::typ::CommandType;
use crate::wire::{lemma_u32_bytes_len, lemma_u32_bytes_of_read, lemma_u32_round_trip, push_u32, read_u32, u32_at,
    u32_bytes};

verus! {

/// The header of one command.
#[derive(Clone, Copy, Debug, PartialEq, Eq)]
pub struct CommandHeader {
    pub cmd_type: CommandType,
    pub channel_id: u8,
    pub flags: u8,
    pub reserved: u8,
    /// Header length plus payload length.
    pub size: u32,
    pub reliable_seq_num: u32,
    /// Present on unreliable commands only.
    pub unreliable_seq_num: Option<u32>,
    /// The five fragment fields are present on fragments only.
    pub start_seq_num: Option<u32>,
    pub fragment_count: Option<u32>,
    pub fragment_num: Option<u32>,
    pub total_len: Option<u32>,
    pub fragment_offset: Option<u32>,
}

/// The length in bytes of the header of a command of kind `t`.
pub open spec fn header_len(t: CommandType) -> int {
    match t {
        CommandType::Unreliable => 16,
        CommandType::Fragmented => 32,
        _ => 12,
    }
}

impl CommandHeader {
    /// The optional fields are exactly those that the kind calls for.
    pub open spec fn wf(self) -> bool {
        &&& self.unreliable_seq_num is Some <==> self.cmd_type == CommandType::Unreliable
        &&& self.start_seq_num is Some <==> self.cmd_type == CommandType::Fragmented
        &&& self.fragment_count is Some <==> self.cmd_type == CommandType::Fragmented
        &&& self.fragment_num is Some <==> self.cmd_type == CommandType::Fragmented
        &&& self.total_len is Some <==> self.cmd_type == CommandType::Fragmented
        &&& self.fragment_offset is Some <==> self.cmd_type == CommandType::Fragmented
    }

    /// The length in bytes of this header on the wire.
    pub open spec fn spec_len(self) -> int {
        header_len(self.cmd_type)
    }

    /// The twelve bytes that every header starts with.
    pub open spec fn spec_prefix(self) -> Seq<u8> {
        seq![self.cmd_type.spec_code(), self.channel_id, self.flags, self.reserved]
            + u32_bytes(self.size as int) + u32_bytes(self.reliable_seq_num as int)
    }

    /// The bytes of this header on the wire.
    pub open spec fn spec_serialize(self) -> Seq<u8>
        recommends
            self.wf(),
    {
        match self.cmd_type {
            CommandType::Unreliable => self.spec_prefix() + u32_bytes(
                self.unreliable_seq_num->0 as int,
            ),
            CommandType::Fragmented => self.spec_prefix() + u32_bytes(self.start_seq_num->0 as int)
                + u32_bytes(self.fragment_count->0 as int) + u32_bytes(
                self.fragment_num->0 as int,
            ) + u32_bytes(self.total_len->0 as int) + u32_bytes(self.fragment_offset->0 as int),
            _ => self.spec_prefix(),
        }
    }

    /// The header that the twelve-byte prefix at `offset` denotes when its
    /// first byte is the code of kind `t`, with no optional field set.
    pub open spec fn spec_base(buf: Seq<u8>, offset: int, t: CommandType) -> CommandHeader {
        CommandHeader {
            cmd_type: t,
            channel_id: buf[offset + 1],
            flags: buf[offset + 2],
            reserved: buf[offset + 3],
            size: u32_at(buf, offset + 4) as u32,
            reliable_seq_num: u32_at(buf, offset + 8) as u32,
            unreliable_seq_num: None,
            start_seq_num: None,
            fragment_count: None,
            fragment_num: None,
            total_len: None,
            fragment_offset: None,
        }
    }

    /// What decoding the bytes of `buf` from `offset` gives: the header and
    /// the number of bytes it occupies, or the reason there is none.
    pub open spec fn spec_deserialize(buf: Seq<u8>, offset: int) -> Result<
        (CommandHeader, int),
        DecodeError,
    > {
        if offset + 12 > buf.len() {
            Err(DecodeError::TruncatedInput)
        } else {
            match CommandType::spec_from_code(buf[offset]) {
                None => Err(DecodeError::UnknownTag(buf[offset])),
                Some(t) => if offset + header_len(t) > buf.len() {
                    Err(DecodeError::TruncatedInput)
                } else {
                    let base = Self::spec_base(buf, offset, t);
                    match t {
                        CommandType::Unreliable => Ok(
                            (
                                CommandHeader {
                                    unreliable_seq_num: Some(u32_at(buf, offset + 12) as u32),
                                    ..base
                                },
                                16,
                            ),
                        ),
                        CommandType::Fragmented => Ok(
                            (
                                CommandHeader {
                                    start_seq_num: Some(u32_at(buf, offset + 12) as u32),
                                    fragment_count: Some(u32_at(buf, offset + 16) as u32),
                                    fragment_num: Some(u32_at(buf, offset + 20) as u32),
                                    total_len: Some(u32_at(buf, offset + 24) as u32),
                                    fragment_offset: Some(u32_at(buf, offset + 28) as u32),
                                    ..base
                                },
                                32,
                            ),
                        ),
                        _ => Ok((base, 12)),
                    }
                },
            }
        }
    }

    /// A header for a command that is neither unreliable nor a fragment,
    /// with no payload accounted for yet.
    pub fn new(cmd_type: CommandType, channel_id: u8, flags: u8, reliable_seq_num: u32) -> (r:
        Self)
        requires
            cmd_type != CommandType::Unreliable,
            cmd_type != CommandType::Fragmented,
        ensures
            r == (CommandHeader {
                cmd_type,
                channel_id,
                flags,
                reserved: 4,
                size: 12,
                reliable_seq_num,
                unreliable_seq_num: None,
                start_seq_num: None,
                fragment_count: None,
                fragment_num: None,
                total_len: None,
                fragment_offset: None,
            }),
            r.wf(),
    {
        CommandHeader {
            cmd_type,
            channel_id,
            flags,
            reserved: 4,
            size: 12,
            reliable_seq_num,
            unreliable_seq_num: None,
            start_seq_num: None,
            fragment_count: None,
            fragment_num: None,
            total_len: None,
            fragment_offset: None,
        }
    }

    /// Turns the header into that of an unreliable command with the given
    /// sequence number and no payload.
    pub fn make_unreliable(self, seq_num: u32) -> (r: Self)
        ensures
            r == (CommandHeader {
                cmd_type: CommandType::Unreliable,
                size: 16,
                unreliable_seq_num: Some(seq_num),
                start_seq_num: None,
                fragment_count: None,
                fragment_num: None,
                total_len: None,
                fragment_offset: None,
                ..self
            }),
            r.wf(),
    {
        CommandHeader {
            cmd_type: CommandType::Unreliable,
            channel_id: self.channel_id,
            flags: self.flags,
            reserved: self.reserved,
            size: 16,
            reliable_seq_num: self.reliable_seq_num,
            unreliable_seq_num: Some(seq_num),
            start_seq_num: None,
            fragment_count: None,
            fragment_num: None,
            total_len: None,
            fragment_offset: None,
        }
    }

    /// Turns the header into that of a fragment with the given fields and
    /// no payload.
    pub fn make_fragmented(
        self,
        seq_num: u32,
        fragment_count: u32,
        fragment_num: u32,
        fragment_offset: u32,
        total_len: u32,
    ) -> (r: Self)
        ensures
            r == (CommandHeader {
                cmd_type: CommandType::Fragmented,
                size: 32,
                unreliable_seq_num: None,
                start_seq_num: Some(seq_num),
                fragment_count: Some(fragment_count),
                fragment_num: Some(fragment_num),
                total_len: Some(total_len),
                fragment_offset: Some(fragment_offset),
                ..self
            }),
            r.wf(),
    {
        CommandHeader {
            cmd_type: CommandType::Fragmented,
            channel_id: self.channel_id,
            flags: self.flags,
            reserved: self.reserved,
            size: 32,
            reliable_seq_num: self.reliable_seq_num,
            unreliable_seq_num: None,
            start_seq_num: Some(seq_num),
            fragment_count: Some(fragment_count),
            fragment_num: Some(fragment_num),
            total_len: Some(total_len),
            fragment_offset: Some(fragment_offset),
        }
    }

    /// The length in bytes of this header on the wire: 16 for an unreliable
    /// command, 32 for a fragment, 12 otherwise.
    pub fn len(&self) -> (r: usize)
        ensures
            r as int == self.spec_len(),
    {
        match self.cmd_type {
            CommandType::Unreliable => 16,
            CommandType::Fragmented => 32,
            _ => 12,
        }
    }

    /// Whether the optional fields are exactly those that the kind calls
    /// for.
    pub fn is_well_formed(&self) -> (r: bool)
        ensures
            r == self.wf(),
    {
        let unreliable = matches!(self.cmd_type, CommandType::Unreliable);
        let fragmented = matches!(self.cmd_type, CommandType::Fragmented);
        self.unreliable_seq_num.is_some() == unreliable && self.start_seq_num.is_some()
            == fragmented && self.fragment_count.is_some() == fragmented
            && self.fragment_num.is_some() == fragmented && self.total_len.is_some() == fragmented
            && self.fragment_offset.is_some() == fragmented
    }

    /// Encodes the header.
    pub fn serialize(&self) -> (r: Vec<u8>)
        requires
            self.wf(),
        ensures
            r@ == self.spec_serialize(),
            r@.len() == self.spec_len(),
    {
        let mut out: Vec<u8> = Vec::new();
        out.push(self.cmd_type.to_u8());
        out.push(self.channel_id);
        out.push(self.flags);
        out.push(self.reserved);
        push_u32(&mut out, self.size);
        push_u32(&mut out, self.reliable_seq_num);
        proof {
            self.lemma_lengths();
        }
        match self.cmd_type {
            CommandType::Unreliable => {
                push_u32(&mut out, self.unreliable_seq_num.unwrap());
            },
            CommandType::Fragmented => {
                push_u32(&mut out, self.start_seq_num.unwrap());
                push_u32(&mut out, self.fragment_count.unwrap());
                push_u32(&mut out, self.fragment_num.unwrap());
                push_u32(&mut out, self.total_len.unwrap());
                push_u32(&mut out, self.fragment_offset.unwrap());
            },
            _ => {},
        }
        out
    }

    /// Decodes the header that starts at `offset` in `buf`, and says how many
    /// bytes it occupies.
    ///
    /// Fails with `TruncatedInput` when fewer than twelve bytes remain, or
    /// fewer than the kind's header length; with `UnknownTag` when the first
    /// byte is no command kind.
    pub fn deserialize(buf: &[u8], offset: usize) -> (r: Result<(CommandHeader, usize), DecodeError>)
        ensures
            match Self::spec_deserialize(buf@, offset as int) {
                Ok((h, n)) => r == Ok::<(CommandHeader, usize), DecodeError>((h, n as usize))
                    && h.wf() && n == h.spec_len() && offset + n <= buf@.len(),
                Err(e) => r == Err::<(CommandHeader, usize), DecodeError>(e),
            },
    {
        if buf.len() < 12 || offset > buf.len() - 12 {
            return Err(DecodeError::TruncatedInput);
        }
        let cmd_type = match CommandType::from_u8(buf[offset]) {
            Ok(t) => t,
            Err(e) => {
                return Err(e);
            },
        };
        let size = match read_u32(buf, offset + 4) {
            Ok(v) => v,
            Err(e) => {
                return Err(e);
            },
        };
        let reliable_seq_num = match read_u32(buf, offset + 8) {
            Ok(v) => v,
            Err(e) => {
                return Err(e);
            },
        };
        let base = CommandHeader {
            cmd_type,
            channel_id: buf[offset + 1],
            flags: buf[offset + 2],
            reserved: buf[offset + 3],
            size,
            reliable_seq_num,
            unreliable_seq_num: None,
            start_seq_num: None,
            fragment_count: None,
            fragment_num: None,
            total_len: None,
            fragment_offset: None,
        };
        let at: usize = offset + 12;
        match cmd_type {
            CommandType::Unreliable => {
                if buf.len() - at < 4 {
                    return Err(DecodeError::TruncatedInput);
                }
                let seq = match read_u32(buf, at) {
                    Ok(v) => v,
                    Err(e) => {
                        return Err(e);
                    },
                };
                Ok((CommandHeader { unreliable_seq_num: Some(seq), ..base }, 16))
            },
            CommandType::Fragmented => {
                if buf.len() - at < 20 {
                    return Err(DecodeError::TruncatedInput);
                }
                let start = match read_u32(buf, at) {
                    Ok(v) => v,
                    Err(e) => {
                        return Err(e);
                    },
                };
                let count = match read_u32(buf, at + 4) {
                    Ok(v) => v,
                    Err(e) => {
                        return Err(e);
                    },
                };
                let num = match read_u32(buf, at + 8) {
                    Ok(v) => v,
                    Err(e) => {
                        return Err(e);
                    },
                };
                let total = match read_u32(buf, at + 12) {
                    Ok(v) => v,
                    Err(e) => {
                        return Err(e);
                    },
                };
                let frag_offset = match read_u32(buf, at + 16) {
                    Ok(v) => v,
                    Err(e) => {
                        return Err(e);
                    },
                };
                Ok(
                    (
                        CommandHeader {
                            start_seq_num: Some(start),
                            fragment_count: Some(count),
                            fragment_num: Some(num),
                            total_len: Some(total),
                            fragment_offset: Some(frag_offset),
                            ..base
                        },
                        32,
                    ),
                )
            },
            _ => Ok((base, 12)),
        }
    }
}

impl CommandHeader {
    /// Decoding the encoding of a header gives the header back, together
    /// with the length of the encoding, whatever bytes stand before and
    /// after it.
    pub proof fn lemma_round_trip(self, before: Seq<u8>, after: Seq<u8>)
        requires
            self.wf(),
        ensures
            self.spec_serialize().len() == self.spec_len(),
            Self::spec_deserialize(
                before + self.spec_serialize() + after,
                before.len() as int,
            ) == Ok::<(CommandHeader, int), DecodeError>((self, self.spec_len())),
    {
        let enc = self.spec_serialize();
        let buf = before + enc + after;
        let at = before.len() as int;
        let head = seq![self.cmd_type.spec_code(), self.channel_id, self.flags, self.reserved];
        let size = u32_bytes(self.size as int);
        let seq_num = u32_bytes(self.reliable_seq_num as int);
        let prefix = self.spec_prefix();
        self.lemma_lengths();
        lemma_u32_bytes_len(self.size as int);
        lemma_u32_bytes_len(self.reliable_seq_num as int);
        self.cmd_type.lemma_code_round_trip();
        let tail = buf.subrange(at + 12, buf.len() as int);
        lemma_read_after(before + head, self.size, seq_num + tail);
        lemma_read_after(before + head + size, self.reliable_seq_num, tail);
        assert(buf[at] == head[0] && buf[at + 1] == head[1] && buf[at + 2] == head[2] && buf[at
            + 3] == head[3]);
        let start = before + prefix;
        match self.cmd_type {
            CommandType::Unreliable => {
                let f = self.unreliable_seq_num->0;
                lemma_u32_bytes_len(f as int);
                lemma_read_after(start, f, after);
            },
            CommandType::Fragmented => {
                let f1 = self.start_seq_num->0;
                let f2 = self.fragment_count->0;
                let f3 = self.fragment_num->0;
                let f4 = self.total_len->0;
                let f5 = self.fragment_offset->0;
                let b1 = u32_bytes(f1 as int);
                let b2 = u32_bytes(f2 as int);
                let b3 = u32_bytes(f3 as int);
                let b4 = u32_bytes(f4 as int);
                let b5 = u32_bytes(f5 as int);
                lemma_u32_bytes_len(f1 as int);
                lemma_u32_bytes_len(f2 as int);
                lemma_u32_bytes_len(f3 as int);
                lemma_u32_bytes_len(f4 as int);
                lemma_u32_bytes_len(f5 as int);
                lemma_read_after(start, f1, b2 + b3 + b4 + b5 + after);
                lemma_read_after(start + b1, f2, b3 + b4 + b5 + after);
                lemma_read_after(start + b1 + b2, f3, b4 + b5 + after);
                lemma_read_after(start + b1 + b2 + b3, f4, b5 + after);
                lemma_read_after(start + b1 + b2 + b3 + b4, f5, after);
            },
            _ => {},
        }
    }

    /// A buffer that ends before the header does is truncated: before the
    /// twelve-byte prefix whatever the first byte, or before the end of
    /// the header of the kind that the first byte names.
    pub proof fn lemma_short_buffer_is_truncated(buf: Seq<u8>, offset: int)
        requires
            0 <= offset,
            offset + 12 > buf.len() || (CommandType::spec_from_code(buf[offset]) matches Some(t)
                && offset + header_len(t) > buf.len()),
        ensures
            Self::spec_deserialize(buf, offset) == Err::<(CommandHeader, int), DecodeError>(
                DecodeError::TruncatedInput,
            ),
    {
    }

    /// The lengths of the prefix and of the whole encoding.
    pub proof fn lemma_lengths(self)
        ensures
            self.spec_prefix().len() == 12,
            self.spec_serialize().len() == self.spec_len(),
    {
        lemma_u32_bytes_len(self.size as int);
        lemma_u32_bytes_len(self.reliable_seq_num as int);
        lemma_u32_bytes_len(self.unreliable_seq_num->0 as int);
        lemma_u32_bytes_len(self.start_seq_num->0 as int);
        lemma_u32_bytes_len(self.fragment_count->0 as int);
        lemma_u32_bytes_len(self.fragment_num->0 as int);
        lemma_u32_bytes_len(self.total_len->0 as int);
        lemma_u32_bytes_len(self.fragment_offset->0 as int);
    }

    /// Encoding a decoded header gives back the bytes it was decoded from.
    pub proof fn lemma_serialize_of_deserialize(buf: Seq<u8>, offset: int)
        requires
            0 <= offset,
            Self::spec_deserialize(buf, offset) is Ok,
        ensures
            ({
                let (h, n) = Self::spec_deserialize(buf, offset)->Ok_0;
                &&& h.wf()
                &&& n == h.spec_len()
                &&& offset + n <= buf.len()
                &&& h.spec_serialize() == buf.subrange(offset, offset + n)
            }),
    {
        let (h, n) = Self::spec_deserialize(buf, offset)->Ok_0;
        CommandType::lemma_from_code_inverse(buf[offset]);
        lemma_u32_bytes_of_read(buf, offset + 4);
        lemma_u32_bytes_of_read(buf, offset + 8);
        match h.cmd_type {
            CommandType::Unreliable => {
                lemma_u32_bytes_of_read(buf, offset + 12);
            },
            CommandType::Fragmented => {
                lemma_u32_bytes_of_read(buf, offset + 12);
                lemma_u32_bytes_of_read(buf, offset + 16);
                lemma_u32_bytes_of_read(buf, offset + 20);
                lemma_u32_bytes_of_read(buf, offset + 24);
                lemma_u32_bytes_of_read(buf, offset + 28);
            },
            _ => {},
        }
    }
}

/// Reading where the encoding of `v` stands gives `v`.
proof fn lemma_read_after(pre: Seq<u8>, v: u32, post: Seq<u8>)
    ensures
        u32_at(pre + u32_bytes(v as int) + post, pre.len() as int) == v as int,
{
    lemma_u32_round_trip(v as int);
    let enc = u32_bytes(v as int);
    let buf = pre + enc + post;
    let at = pre.len() as int;
    assert(buf[at] == enc[0] && buf[at + 1] == enc[1] && buf[at + 2] == enc[2] && buf[at + 3]
        == enc[3]);
}

impl Default for CommandHeader {
    fn default() -> (r: Self)
        ensures
            r == (CommandHeader {
                cmd_type: CommandType::Nothing,
                channel_id: 0,
                flags: 0,
                reserved: 0,
                size: 0,
                reliable_seq_num: 0,
                unreliable_seq_num: None,
                start_seq_num: None,
                fragment_count: None,
                fragment_num: None,
                total_len: None,
                fragment_offset: None,
            }),
    {
        CommandHeader {
            cmd_type: CommandType::Nothing,
            channel_id: 0,
            flags: 0,
            reserved: 0,
            size: 0,
            reliable_seq_num: 0,
            unreliable_seq_num: None,
            start_seq_num: None,
            fragment_count: None,
            fragment_num: None,
            total_len: None,
            fragment_offset: None,
        }
    }
}

} // verus!
