use photon_packets::codes::MessageType;
use photon_packets::error::DecodeError;
use photon_packets::fragment::FragmentReassembler;
use photon_packets::header::CommandHeader;
use photon_packets::payload::{
    Ack, CommandPayload, Connect, Disconnect, Fragmented, Ping, Reliable, ServerTime, Unreliable,
    VerifyConnect,
};
use photon_packets::photon::{Init, InitResponse, Operation, OperationResponse, PhotonCommand};
use photon_packets::value::Value;
use photon_packets::reply::{AuxillaryProperty, Reply, RESERVED_SENTINEL};
use photon_packets::request::{Command, Request};
use photon_packets::typ::CommandType;
use std::collections::BTreeMap;

fn header_for(kind: CommandType, payload_len: u32) -> CommandHeader {
    let mut h = CommandHeader::new(kind, 0, 0, 1);
    h.size += payload_len;
    h
}

#[test]
fn request_with_no_commands() {
    let buf = [0x00u8, 0x05, 0x00, 0x00, 0x12, 0x34, 0x56, 0x78, 0x9a, 0xbc, 0xde, 0xf0];
    let mut r = FragmentReassembler::new();
    let packet = Request::deserialize(&buf, &mut r).unwrap();
    assert_eq!(packet.peer_id, 5);
    assert!(!packet.use_crc);
    assert_eq!(packet.cmd_count, 0);
    assert_eq!(packet.time, 0x12345678);
    assert_eq!(packet.challenge, 0x9abcdef0);
    assert!(packet.cmds.is_empty());
}

#[test]
fn connect_payload_fields() {
    let mut payload = [0u8; 20];
    payload[2] = 0x04;
    payload[3] = 0xb0;
    payload[11] = 3;
    let header = header_for(CommandType::Connect, 20);
    let mut r = FragmentReassembler::new();
    assert_eq!(
        CommandPayload::deserialize(&payload, &header, &mut r),
        Ok(Some(CommandPayload::Connect(Connect { mtu: 1200, channel_count: 3, len: 20 })))
    );
}

#[test]
fn connect_command_in_a_buffer() {
    let mut buf = header_for(CommandType::Connect, 20).serialize();
    assert_eq!(buf[0], 2);
    assert_eq!(buf.len(), 12);
    let mut payload = [0u8; 20];
    payload[2] = 0x04;
    payload[3] = 0xb0;
    payload[11] = 3;
    buf.extend(payload);
    let mut r = FragmentReassembler::new();
    let cmd = Command::deserialize(&buf, 0, &mut r).unwrap();
    assert_eq!(cmd.len(), 32);
    assert_eq!(
        cmd.payload,
        Some(CommandPayload::Connect(Connect { mtu: 1200, channel_count: 3, len: 20 }))
    );
}

#[test]
fn ack_payload_fields() {
    let payload = [0u8, 0, 0, 9, 0x11, 0x22, 0x33, 0x44];
    let header = header_for(CommandType::Ack, 8);
    let mut r = FragmentReassembler::new();
    assert_eq!(
        CommandPayload::deserialize(&payload, &header, &mut r),
        Ok(Some(CommandPayload::Ack(Ack { acked_seq_num: 9, send_time: 0x11223344, len: 8 })))
    );
}

#[test]
fn verify_connect_payload_fields() {
    let mut payload = [0u8; 20];
    payload[0] = 0x01;
    payload[1] = 0x02;
    let header = header_for(CommandType::VerifyConnect, 20);
    let mut r = FragmentReassembler::new();
    assert_eq!(
        CommandPayload::deserialize(&payload, &header, &mut r),
        Ok(Some(CommandPayload::VerifyConnect(VerifyConnect { peer_id: 0x0102, len: 20 })))
    );
}

#[test]
fn payloads_without_fields() {
    let mut r = FragmentReassembler::new();
    assert_eq!(
        CommandPayload::deserialize(&[], &header_for(CommandType::Ping, 0), &mut r),
        Ok(Some(CommandPayload::Ping(Ping { len: 0 })))
    );
    assert_eq!(
        CommandPayload::deserialize(&[], &header_for(CommandType::Disconnect, 0), &mut r),
        Ok(Some(CommandPayload::Disconnect(Disconnect { len: 0 })))
    );
    assert_eq!(
        CommandPayload::deserialize(&[1, 2], &header_for(CommandType::ServerTime, 2), &mut r),
        Ok(Some(CommandPayload::ServerTime(ServerTime { len: 2 })))
    );
    assert_eq!(
        CommandPayload::deserialize(&[], &header_for(CommandType::Nothing, 0), &mut r),
        Ok(Some(CommandPayload::Nothing))
    );
}

#[test]
fn payload_shorter_than_its_fields() {
    let mut r = FragmentReassembler::new();
    assert_eq!(
        CommandPayload::deserialize(&[0; 7], &header_for(CommandType::Ack, 7), &mut r),
        Err(DecodeError::TruncatedInput)
    );
    assert_eq!(
        CommandPayload::deserialize(&[0; 11], &header_for(CommandType::Connect, 11), &mut r),
        Err(DecodeError::TruncatedInput)
    );
    assert_eq!(
        CommandPayload::deserialize(&[0; 1], &header_for(CommandType::VerifyConnect, 1), &mut r),
        Err(DecodeError::TruncatedInput)
    );
}

#[test]
fn payload_decoding_does_not_read_the_header_size() {
    let mut r = FragmentReassembler::new();
    let payload = [0u8, 0, 0, 9, 0x11, 0x22, 0x33, 0x44];
    let expected = Ok(Some(CommandPayload::Ack(Ack {
        acked_seq_num: 9,
        send_time: 0x11223344,
        len: 8,
    })));
    // the size as the constructor leaves it
    let header = CommandHeader::new(CommandType::Ack, 0, 0, 1);
    assert_eq!(header.size, 12);
    assert_eq!(CommandPayload::deserialize(&payload, &header, &mut r), expected);
    for size in [0u32, 11, 19, 20, 21, 0xffff_ffff] {
        let mut header = CommandHeader::new(CommandType::Ack, 0, 0, 1);
        header.size = size;
        assert_eq!(CommandPayload::deserialize(&payload, &header, &mut r), expected);
    }
}

#[test]
fn ack_payload_keeps_any_two_numbers() {
    let mut r = FragmentReassembler::new();
    let header = CommandHeader::new(CommandType::Ack, 0, 0, 1);
    for (x, y) in [(0u32, 0u32), (0xffff_ffff, 0xffff_ffff), (0x2a, 0x1234_5678), (1, 0)] {
        let mut buf = x.to_be_bytes().to_vec();
        buf.extend(y.to_be_bytes());
        assert_eq!(
            CommandPayload::deserialize(&buf, &header, &mut r),
            Ok(Some(CommandPayload::Ack(Ack { acked_seq_num: x, send_time: y, len: 8 })))
        );
    }
    assert!(!r.is_pending(1));
}

#[test]
fn short_payload_under_a_constructed_header_is_truncated() {
    let mut r = FragmentReassembler::new();
    let ack = CommandHeader::new(CommandType::Ack, 0, 0, 1);
    assert_eq!(
        CommandPayload::deserialize(&[0x00, 0x00, 0x00, 0x2a, 0x12, 0x34], &ack, &mut r),
        Err(DecodeError::TruncatedInput)
    );
    let connect = CommandHeader::new(CommandType::Connect, 0, 0, 1);
    assert_eq!(
        CommandPayload::deserialize(&[0; 11], &connect, &mut r),
        Err(DecodeError::TruncatedInput)
    );
    let verify = CommandHeader::new(CommandType::VerifyConnect, 0, 0, 1);
    assert_eq!(
        CommandPayload::deserialize(&[7], &verify, &mut r),
        Err(DecodeError::TruncatedInput)
    );
    assert_eq!(
        CommandPayload::deserialize(&[], &verify, &mut r),
        Err(DecodeError::TruncatedInput)
    );
}

fn two_part(offset: u32) -> CommandHeader {
    CommandHeader::new(CommandType::Nothing, 0, 0, 1).make_fragmented(7, 2, 0, offset, 5)
}

fn empty_operation() -> CommandPayload {
    CommandPayload::Fragmented(Fragmented {
        payload: PhotonCommand::Operation(Operation {
            msg_type: MessageType::Operation,
            opcode: 9,
            values: BTreeMap::new(),
        }),
        len: 5,
    })
}

#[test]
fn fragments_under_constructed_headers_out_of_order() {
    let mut r = FragmentReassembler::new();
    assert_eq!(two_part(3).size, 32);
    assert_eq!(CommandPayload::deserialize(&[0x00, 0x00], &two_part(3), &mut r), Ok(None));
    assert!(r.is_pending(7));
    assert_eq!(
        CommandPayload::deserialize(&[0xf3, 0x02, 0x09], &two_part(0), &mut r),
        Ok(Some(empty_operation()))
    );
    assert!(!r.is_pending(7));
}

#[test]
fn fragments_under_constructed_headers_in_order() {
    let mut r = FragmentReassembler::new();
    assert_eq!(CommandPayload::deserialize(&[0xf3, 0x02, 0x09], &two_part(0), &mut r), Ok(None));
    assert_eq!(
        CommandPayload::deserialize(&[0x00, 0x00], &two_part(3), &mut r),
        Ok(Some(empty_operation()))
    );
}

#[test]
fn repeated_fragment_under_constructed_headers_is_not_counted() {
    let mut r = FragmentReassembler::new();
    assert_eq!(CommandPayload::deserialize(&[0xf3, 0x02, 0x09], &two_part(0), &mut r), Ok(None));
    assert_eq!(CommandPayload::deserialize(&[0xf3, 0x02, 0x09], &two_part(0), &mut r), Ok(None));
    assert!(r.is_pending(7));
    assert_eq!(
        CommandPayload::deserialize(&[0x00, 0x00], &two_part(3), &mut r),
        Ok(Some(empty_operation()))
    );
    assert!(!r.is_pending(7));
}

#[test]
fn fragment_beyond_the_total_length_under_a_constructed_header() {
    let mut r = FragmentReassembler::new();
    assert_eq!(CommandPayload::deserialize(&[0xf3, 0x02, 0x09], &two_part(0), &mut r), Ok(None));
    assert!(r.is_pending(7));
    assert_eq!(
        CommandPayload::deserialize(&[1, 2], &two_part(4), &mut r),
        Err(DecodeError::FragmentOutOfBounds)
    );
    assert!(!r.is_pending(7));
    // what was there is gone: the other fragment alone completes nothing
    assert_eq!(CommandPayload::deserialize(&[0x00, 0x00], &two_part(3), &mut r), Ok(None));
}

#[test]
fn command_size_is_checked_where_the_command_is_cut() {
    let mut r = FragmentReassembler::new();
    // an Ack whose size leaves six bytes of payload: cut by the size, then truncated
    let mut h = CommandHeader::new(CommandType::Ack, 0, 0, 1);
    h.size = 18;
    let mut buf = h.serialize();
    buf.extend([0u8; 8]);
    assert_eq!(Command::deserialize(&buf, 0, &mut r), Err(DecodeError::TruncatedInput));
    // a size below the header's length
    h.size = 11;
    let mut buf = h.serialize();
    buf.extend([0u8; 8]);
    assert_eq!(Command::deserialize(&buf, 0, &mut r), Err(DecodeError::SizeMismatch));
}

#[test]
fn reliable_and_unreliable_payloads_carry_a_message() {
    let message = [0xf3u8, 1, 4];
    let mut r = FragmentReassembler::new();
    assert_eq!(
        CommandPayload::deserialize(&message, &header_for(CommandType::Reliable, 3), &mut r),
        Ok(Some(CommandPayload::Reliable(Reliable {
            payload: PhotonCommand::InitResponse(InitResponse { acked_num: 4 }),
            len: 3,
        })))
    );
    let mut h = CommandHeader::new(CommandType::Ping, 0, 0, 1).make_unreliable(2);
    h.size += 3;
    assert_eq!(
        CommandPayload::deserialize(&message, &h, &mut r),
        Ok(Some(CommandPayload::Unreliable(Unreliable {
            payload: PhotonCommand::InitResponse(InitResponse { acked_num: 4 }),
            len: 3,
        })))
    );
    assert_eq!(
        CommandPayload::deserialize(&[0xf3, 1], &header_for(CommandType::Reliable, 2), &mut r),
        Err(DecodeError::TruncatedInput)
    );
}

fn fragment_header(start: u32, count: u32, offset: u32, total: u32, payload_len: u32) -> CommandHeader {
    let mut h = CommandHeader::new(CommandType::Ping, 0, 0, start).make_fragmented(start, count, 0, offset, total);
    h.size += payload_len;
    h
}

#[test]
fn fragmented_payload_waits_for_the_whole_message() {
    let mut r = FragmentReassembler::new();
    assert_eq!(
        CommandPayload::deserialize(&[0xf3, 1], &fragment_header(9, 2, 0, 3, 2), &mut r),
        Ok(None)
    );
    assert!(r.is_pending(9));
    assert_eq!(
        CommandPayload::deserialize(&[4], &fragment_header(9, 2, 2, 3, 1), &mut r),
        Ok(Some(CommandPayload::Fragmented(Fragmented {
            payload: PhotonCommand::InitResponse(InitResponse { acked_num: 4 }),
            len: 3,
        })))
    );
    assert!(!r.is_pending(9));
}

#[test]
fn fragmented_payload_errors() {
    let mut r = FragmentReassembler::new();
    assert_eq!(
        CommandPayload::deserialize(&[1, 2], &fragment_header(9, 2, 2, 3, 2), &mut r),
        Err(DecodeError::FragmentOutOfBounds)
    );
    // a complete message that is no message
    assert_eq!(
        CommandPayload::deserialize(&[1, 2], &fragment_header(9, 1, 0, 2, 2), &mut r),
        Err(DecodeError::UnknownMessageType(1))
    );
    assert!(!r.is_pending(9));
}

#[test]
fn payload_len_and_serialize() {
    assert_eq!(CommandPayload::Nothing.len(), 0);
    assert_eq!(CommandPayload::Ack(Ack { acked_seq_num: 1, send_time: 2, len: 8 }).len(), 8);
    assert_eq!(CommandPayload::Ping(Ping { len: 0 }).len(), 0);
    let reliable = CommandPayload::Reliable(Reliable {
        payload: PhotonCommand::InitResponse(InitResponse { acked_num: 4 }),
        len: 3,
    });
    assert_eq!(reliable.len(), 3);
    assert_eq!(reliable.serialize(), Some(vec![0xf3, 1, 4]));
}

#[test]
fn payload_serialize_exact_bytes() {
    assert_eq!(CommandPayload::Nothing.serialize(), Some(vec![]));
    assert_eq!(
        CommandPayload::Ack(Ack { acked_seq_num: 9, send_time: 0x11223344, len: 8 }).serialize(),
        Some(vec![0, 0, 0, 9, 0x11, 0x22, 0x33, 0x44])
    );
    assert_eq!(
        CommandPayload::Ack(Ack { acked_seq_num: 9, send_time: 1, len: 10 }).serialize(),
        Some(vec![0, 0, 0, 9, 0, 0, 0, 1, 0, 0])
    );
    let mut connect = vec![0u8; 20];
    connect[2] = 0x04;
    connect[3] = 0xb0;
    connect[11] = 3;
    assert_eq!(
        CommandPayload::Connect(Connect { mtu: 1200, channel_count: 3, len: 20 }).serialize(),
        Some(connect)
    );
    assert_eq!(
        CommandPayload::VerifyConnect(VerifyConnect { peer_id: 0x0102, len: 4 }).serialize(),
        Some(vec![1, 2, 0, 0])
    );
    assert_eq!(CommandPayload::Ping(Ping { len: 0 }).serialize(), Some(vec![]));
    assert_eq!(CommandPayload::Disconnect(Disconnect { len: 2 }).serialize(), Some(vec![0, 0]));
    assert_eq!(CommandPayload::ServerTime(ServerTime { len: 1 }).serialize(), Some(vec![0]));
}

#[test]
fn payload_serialize_refuses_what_does_not_fit() {
    assert_eq!(
        CommandPayload::Ack(Ack { acked_seq_num: 9, send_time: 1, len: 7 }).serialize(),
        None
    );
    assert_eq!(
        CommandPayload::Connect(Connect { mtu: 1, channel_count: 3, len: 11 }).serialize(),
        None
    );
    assert_eq!(
        CommandPayload::VerifyConnect(VerifyConnect { peer_id: 1, len: 1 }).serialize(),
        None
    );
    // the declared length is not that of the message
    let reliable = CommandPayload::Reliable(Reliable {
        payload: PhotonCommand::InitResponse(InitResponse { acked_num: 4 }),
        len: 4,
    });
    assert_eq!(reliable.serialize(), None);
}

#[test]
fn payload_round_trip() {
    let mut r = FragmentReassembler::new();
    let payloads = [
        (CommandType::Ack, CommandPayload::Ack(Ack { acked_seq_num: 9, send_time: 7, len: 8 })),
        (
            CommandType::Connect,
            CommandPayload::Connect(Connect { mtu: 1200, channel_count: 3, len: 20 }),
        ),
        (
            CommandType::VerifyConnect,
            CommandPayload::VerifyConnect(VerifyConnect { peer_id: 0xfffe, len: 20 }),
        ),
        (CommandType::Ping, CommandPayload::Ping(Ping { len: 0 })),
        (CommandType::Disconnect, CommandPayload::Disconnect(Disconnect { len: 0 })),
        (CommandType::ServerTime, CommandPayload::ServerTime(ServerTime { len: 3 })),
        (CommandType::Nothing, CommandPayload::Nothing),
        (
            CommandType::Reliable,
            CommandPayload::Reliable(Reliable {
                payload: PhotonCommand::InitResponse(InitResponse { acked_num: 4 }),
                len: 3,
            }),
        ),
    ];
    for (kind, payload) in payloads {
        let bytes = payload.serialize().unwrap();
        let header = header_for(kind, bytes.len() as u32);
        assert_eq!(
            CommandPayload::deserialize(&bytes, &header, &mut r),
            Ok(Some(payload))
        );
    }
}

#[test]
fn command_new_adds_the_payload_length() {
    let cmd = Command::new(
        CommandHeader::new(CommandType::Ack, 1, 0, 5),
        CommandPayload::Ack(Ack { acked_seq_num: 1, send_time: 2, len: 8 }),
    );
    assert_eq!(cmd.header.size, 20);
    assert_eq!(cmd.len(), 20);
    assert_eq!(cmd.header.cmd_type, CommandType::Ack);
    assert!(cmd.payload.is_some());
    let cmd = Command::new(CommandHeader::new(CommandType::Ping, 1, 0, 5), CommandPayload::Nothing);
    assert_eq!(cmd.len(), 12);
}

#[test]
fn command_serialize_is_header_then_payload() {
    let cmd = Command::new(CommandHeader::new(CommandType::Ping, 1, 2, 3), CommandPayload::Nothing);
    assert_eq!(cmd.serialize(), Some(vec![5, 1, 2, 4, 0, 0, 0, 12, 0, 0, 0, 3]));
    let ack = Command::new(
        CommandHeader::new(CommandType::Ack, 1, 2, 3),
        CommandPayload::Ack(Ack { acked_seq_num: 5, send_time: 6, len: 8 }),
    );
    assert_eq!(
        ack.serialize(),
        Some(vec![1, 1, 2, 4, 0, 0, 0, 20, 0, 0, 0, 3, 0, 0, 0, 5, 0, 0, 0, 6])
    );
}

#[test]
fn command_serialize_refuses_what_has_no_wire_form() {
    // no payload
    let bare = Command { header: CommandHeader::new(CommandType::Ping, 1, 2, 3), payload: None };
    assert_eq!(bare.serialize(), None);
    // a size that is not the length of header and payload
    let mut cmd = Command::new(
        CommandHeader::new(CommandType::Ack, 1, 2, 3),
        CommandPayload::Ack(Ack { acked_seq_num: 5, send_time: 6, len: 8 }),
    );
    cmd.header.size = 21;
    assert_eq!(cmd.serialize(), None);
    cmd.header.size = 11;
    assert_eq!(cmd.serialize(), None);
    // a header whose optional fields do not fit its kind
    let mut cmd = Command::new(CommandHeader::new(CommandType::Ping, 1, 2, 3), CommandPayload::Nothing);
    cmd.header.unreliable_seq_num = Some(1);
    assert_eq!(cmd.serialize(), None);
    let mut cmd = Command::new(CommandHeader::new(CommandType::Ping, 1, 2, 3), CommandPayload::Nothing);
    cmd.header.cmd_type = CommandType::Fragmented;
    assert_eq!(cmd.serialize(), None);
}

#[test]
fn command_size_errors() {
    let mut r = FragmentReassembler::new();
    // size smaller than the header
    let mut h = CommandHeader::new(CommandType::Ping, 0, 0, 0);
    h.size = 11;
    assert_eq!(
        Command::deserialize(&h.serialize(), 0, &mut r),
        Err(DecodeError::SizeMismatch)
    );
    // size beyond the buffer
    h.size = 13;
    assert_eq!(
        Command::deserialize(&h.serialize(), 0, &mut r),
        Err(DecodeError::TruncatedInput)
    );
    h.size = 0xffff_ffff;
    assert_eq!(
        Command::deserialize(&h.serialize(), 0, &mut r),
        Err(DecodeError::TruncatedInput)
    );
    assert_eq!(
        Command::deserialize(&h.serialize(), 1, &mut r),
        Err(DecodeError::TruncatedInput)
    );
}

fn envelope(count: u8) -> Vec<u8> {
    vec![0x12, 0x34, 1, count, 0, 0, 0, 7, 0, 0, 0, 9]
}

#[test]
fn request_with_several_commands() {
    let mut buf = envelope(3);
    buf.extend(header_for(CommandType::Ack, 8).serialize());
    buf.extend([0u8, 0, 0, 2, 0, 0, 0, 3]);
    buf.extend(header_for(CommandType::Ping, 0).serialize());
    buf.extend(header_for(CommandType::Reliable, 5).serialize());
    buf.extend([0xf3u8, 2, 7, 0, 0]);
    let mut r = FragmentReassembler::new();
    let packet = Request::deserialize(&buf, &mut r).unwrap();
    assert_eq!(packet.peer_id, 0x1234);
    assert!(packet.use_crc);
    assert_eq!(packet.cmd_count, 3);
    assert_eq!(packet.time, 7);
    assert_eq!(packet.challenge, 9);
    assert_eq!(packet.cmds.len(), 3);
    assert_eq!(
        packet.cmds[0].payload,
        Some(CommandPayload::Ack(Ack { acked_seq_num: 2, send_time: 3, len: 8 }))
    );
    assert_eq!(packet.cmds[1].payload, Some(CommandPayload::Ping(Ping { len: 0 })));
    assert_eq!(
        packet.cmds[2].payload,
        Some(CommandPayload::Reliable(Reliable {
            payload: PhotonCommand::Operation(Operation {
                msg_type: MessageType::Operation,
                opcode: 7,
                values: BTreeMap::new(),
            }),
            len: 5,
        }))
    );
    assert_eq!(packet.cmds[2].header.size, 17);
}

#[test]
fn request_leaves_out_fragments_in_progress() {
    let mut r = FragmentReassembler::new();
    let mut first = envelope(2);
    first.extend(fragment_header(4, 2, 0, 3, 2).serialize());
    first.extend([0xf3u8, 1]);
    first.extend(header_for(CommandType::Ping, 0).serialize());
    let packet = Request::deserialize(&first, &mut r).unwrap();
    assert_eq!(packet.cmd_count, 2);
    assert_eq!(packet.cmds.len(), 1);
    assert_eq!(packet.cmds[0].header.cmd_type, CommandType::Ping);
    assert!(r.is_pending(4));

    let mut second = envelope(1);
    second.extend(fragment_header(4, 2, 2, 3, 1).serialize());
    second.extend([6u8]);
    let packet = Request::deserialize(&second, &mut r).unwrap();
    assert_eq!(packet.cmds.len(), 1);
    assert_eq!(
        packet.cmds[0].payload,
        Some(CommandPayload::Fragmented(Fragmented {
            payload: PhotonCommand::InitResponse(InitResponse { acked_num: 6 }),
            len: 3,
        }))
    );
    assert!(!r.is_pending(4));
}

#[test]
fn request_errors() {
    let mut r = FragmentReassembler::new();
    assert_eq!(
        Request::deserialize(&[0u8; 11], &mut r),
        Err(DecodeError::TruncatedInput)
    );
    // a trailing partial header
    let mut buf = envelope(1);
    buf.extend([5u8, 0, 0]);
    assert_eq!(Request::deserialize(&buf, &mut r), Err(DecodeError::TruncatedInput));
    // an unknown command kind after a good command
    let mut buf = envelope(2);
    buf.extend(header_for(CommandType::Ping, 0).serialize());
    buf.extend([11u8, 0, 0, 0, 0, 0, 0, 12, 0, 0, 0, 0]);
    assert_eq!(Request::deserialize(&buf, &mut r), Err(DecodeError::UnknownTag(11)));
    // a payload cut short
    let mut buf = envelope(1);
    buf.extend(header_for(CommandType::Ack, 8).serialize());
    buf.extend([0u8; 7]);
    assert_eq!(Request::deserialize(&buf, &mut r), Err(DecodeError::TruncatedInput));
}

#[test]
fn request_error_keeps_earlier_fragments() {
    let mut r = FragmentReassembler::new();
    let mut buf = envelope(2);
    buf.extend(fragment_header(4, 2, 0, 3, 2).serialize());
    buf.extend([0xf3u8, 1]);
    buf.extend([11u8, 0, 0, 0, 0, 0, 0, 12, 0, 0, 0, 0]);
    assert_eq!(Request::deserialize(&buf, &mut r), Err(DecodeError::UnknownTag(11)));
    assert!(r.is_pending(4));
}

#[test]
fn auxillary_property_codes() {
    assert_eq!(AuxillaryProperty::Nothing.to_u8(), 0);
    assert_eq!(AuxillaryProperty::Encrypted.to_u8(), 1);
    assert_eq!(AuxillaryProperty::Crc.to_u8(), 204);
    assert_eq!(AuxillaryProperty::from_u8(0), Ok(AuxillaryProperty::Nothing));
    assert_eq!(AuxillaryProperty::from_u8(1), Ok(AuxillaryProperty::Encrypted));
    assert_eq!(AuxillaryProperty::from_u8(204), Ok(AuxillaryProperty::Crc));
    assert_eq!(AuxillaryProperty::from_u8(2), Err(DecodeError::UnknownTag(2)));
    assert_eq!(AuxillaryProperty::default(), AuxillaryProperty::Nothing);
    assert_eq!(u8::from(AuxillaryProperty::Crc), 204);
}

#[test]
fn reply_default_is_empty() {
    let reply = Reply::default();
    assert_eq!(reply.unused, 0);
    assert_eq!(reply.cmd_count, 0);
    assert!(reply.cmds.is_empty());
    assert_eq!(reply.serialize(), Some(vec![0u8; 12]));
}

#[test]
fn reply_new_counts_its_commands() {
    let cmds = vec![
        Command::new(CommandHeader::new(CommandType::Ping, 0, 0, 1), CommandPayload::Nothing),
        Command::new(CommandHeader::new(CommandType::Ack, 0, 0, 2), CommandPayload::Nothing),
    ];
    let reply = Reply::new(10, 20, cmds);
    assert_eq!(reply.unused, RESERVED_SENTINEL);
    assert_eq!(reply.unused, 0x1337);
    assert_eq!(reply.aux_property, AuxillaryProperty::Nothing);
    assert_eq!(reply.cmd_count, 2);
    assert_eq!(reply.send_time, 10);
    assert_eq!(reply.challenge, 20);
    assert_eq!(reply.cmds.len(), 2);
    assert_eq!(reply.iv, None);
    assert_eq!(reply.crc, None);
}

#[test]
fn reply_serialize_exact_bytes() {
    let cmds = vec![
        Command::new(CommandHeader::new(CommandType::Ping, 1, 2, 3), CommandPayload::Nothing),
        Command::new(
            CommandHeader::new(CommandType::Ping, 0, 0, 4).make_unreliable(5),
            CommandPayload::Nothing,
        ),
    ];
    let reply = Reply::new(0x01020304, 0xa0b0c0d0, cmds);
    assert_eq!(
        reply.serialize(),
        Some(vec![
            0x13, 0x37, 0, 2, 1, 2, 3, 4, 0xa0, 0xb0, 0xc0, 0xd0, // envelope
            5, 1, 2, 4, 0, 0, 0, 12, 0, 0, 0, 3, // ping
            7, 0, 0, 4, 0, 0, 0, 16, 0, 0, 0, 4, 0, 0, 0, 5, // unreliable
        ])
    );
}

#[test]
fn reply_serialize_refuses_a_command_without_wire_form() {
    let cmds = vec![
        Command::new(CommandHeader::new(CommandType::Ping, 1, 2, 3), CommandPayload::Nothing),
        Command { header: CommandHeader::new(CommandType::Ping, 1, 2, 3), payload: None },
    ];
    assert_eq!(Reply::new(1, 2, cmds).serialize(), None);
}

#[test]
fn reply_without_commands_is_its_envelope() {
    let reply = Reply::new(1, 2, Vec::new());
    assert_eq!(reply.serialize(), Some(vec![0x13, 0x37, 0, 0, 0, 0, 0, 1, 0, 0, 0, 2]));
}

#[test]
fn reply_round_trip() {
    let mut values = BTreeMap::new();
    values.insert(7u8, Some(Value::String(String::from("room"))));
    values.insert(
        3u8,
        Some(Value::HashTable(vec![(Some(Value::Byte(1)), Some(Value::Integer(-5))), (None, None)])),
    );
    values.insert(200u8, None);
    let operation = PhotonCommand::Operation(Operation {
        msg_type: MessageType::Operation,
        opcode: 0xe6,
        values: values.clone(),
    });
    let response = PhotonCommand::OperationResponse(OperationResponse {
        opcode: 0xe6,
        retcode: 0x7fff,
        dbg_msg: Some(Value::String(String::from("ok"))),
        parameters: values,
    });
    let init = PhotonCommand::Init(Init {
        protocol_version: [1, 6],
        client_sdk_id: 15,
        client_version: [4, 1, 2, 3],
        app_id: String::from("lobby"),
    });
    let operation_len = operation.serialize().unwrap().len() as u32;
    let response_len = response.serialize().unwrap().len() as u32;
    let init_len = init.serialize().unwrap().len() as u32;
    let cmds = vec![
        Command::new(
            CommandHeader::new(CommandType::Ping, 1, 2, 3),
            CommandPayload::Ping(Ping { len: 0 }),
        ),
        Command::new(
            CommandHeader::new(CommandType::Ack, 0, 0, 4),
            CommandPayload::Ack(Ack { acked_seq_num: 1, send_time: 2, len: 8 }),
        ),
        Command::new(
            CommandHeader::new(CommandType::Reliable, 0, 0, 5),
            CommandPayload::Reliable(Reliable { payload: operation, len: operation_len }),
        ),
        Command::new(
            CommandHeader::new(CommandType::Ping, 0, 0, 6).make_unreliable(9),
            CommandPayload::Unreliable(Unreliable { payload: response, len: response_len }),
        ),
        Command::new(
            CommandHeader::new(CommandType::Reliable, 0, 0, 7),
            CommandPayload::Reliable(Reliable { payload: init, len: init_len }),
        ),
    ];
    let reply = Reply::new(0x01020304, 0xa0b0c0d0, cmds);
    let bytes = reply.serialize().unwrap();
    let mut r = FragmentReassembler::new();
    assert_eq!(Reply::deserialize(&bytes, &mut r), Ok(reply));
}

#[test]
fn reply_deserialize_errors() {
    let mut r = FragmentReassembler::new();
    assert_eq!(Reply::deserialize(&[0u8; 5], &mut r), Err(DecodeError::TruncatedInput));
    let buf = [0x13u8, 0x37, 7, 0, 0, 0, 0, 0, 0, 0, 0, 0];
    assert_eq!(Reply::deserialize(&buf, &mut r), Err(DecodeError::UnknownTag(7)));
    let buf = [0x13u8, 0x37, 204, 0, 0, 0, 0, 0, 0, 0, 0, 0];
    assert_eq!(
        Reply::deserialize(&buf, &mut r).map(|p| p.aux_property),
        Ok(AuxillaryProperty::Crc)
    );
}
