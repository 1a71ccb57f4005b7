use photon_packets::codes::{GpType, MessageType};
use photon_packets::error::DecodeError;
use photon_packets::photon::{
    Encrypted, Event, Init, InitResponse, InternalOperationRequest, InternalOperationResponse,
    Operation, OperationResponse, PhotonCommand,
};
use photon_packets::value::Value;
use std::collections::BTreeMap;

#[test]
fn decode_init_message() {
    let mut buf = vec![0xf3u8, 0, 1, 6, 0x0e, 0x41, 2, 3, 0x99];
    buf.extend(b"app\0\0");
    let got = PhotonCommand::decode(&buf);
    assert_eq!(
        got,
        Ok(PhotonCommand::Init(Init {
            protocol_version: [1, 6],
            client_sdk_id: 7,
            client_version: [4, 1, 2, 3],
            app_id: String::from("app"),
        }))
    );
}

#[test]
fn decode_init_without_app_id() {
    let buf = [0xf3u8, 0, 1, 6, 0xff, 0xff, 2, 3, 0];
    assert_eq!(
        PhotonCommand::decode(&buf),
        Ok(PhotonCommand::Init(Init {
            protocol_version: [1, 6],
            client_sdk_id: 127,
            client_version: [15, 15, 2, 3],
            app_id: String::new(),
        }))
    );
}

#[test]
fn decode_init_truncated_or_bad_text() {
    let buf = [0xf3u8, 0, 1, 6, 0x0e, 0x41, 2, 3];
    assert_eq!(PhotonCommand::decode(&buf), Err(DecodeError::TruncatedInput));
    let buf = [0xf3u8, 0, 1, 6, 0x0e, 0x41, 2, 3, 0, 0xff];
    assert_eq!(PhotonCommand::decode(&buf), Err(DecodeError::InvalidText));
}

#[test]
fn decode_init_response() {
    assert_eq!(
        PhotonCommand::decode(&[0xf3, 1, 0x2a]),
        Ok(PhotonCommand::InitResponse(InitResponse { acked_num: 0x2a }))
    );
    assert_eq!(
        PhotonCommand::decode(&[0xf3, 1]),
        Err(DecodeError::TruncatedInput)
    );
}

fn one_parameter() -> BTreeMap<u8, Option<Value>> {
    let mut m = BTreeMap::new();
    m.insert(5u8, Some(Value::Integer(-1)));
    m
}

#[test]
fn decode_operation() {
    let buf = [0xf3u8, 2, 0xe6, 0, 1, 5, 105, 0xff, 0xff, 0xff, 0xff];
    assert_eq!(
        PhotonCommand::decode(&buf),
        Ok(PhotonCommand::Operation(Operation {
            msg_type: MessageType::Operation,
            opcode: 0xe6,
            values: one_parameter(),
        }))
    );
}

#[test]
fn decode_event_and_internal_messages() {
    let body = [0xe6u8, 0, 1, 5, 105, 0xff, 0xff, 0xff, 0xff];
    let mut buf = vec![0xf3u8, 4];
    buf.extend(body);
    assert_eq!(
        PhotonCommand::decode(&buf),
        Ok(PhotonCommand::Event(Event {
            msg_type: MessageType::Event,
            opcode: 0xe6,
            values: one_parameter(),
        }))
    );
    buf[1] = 6;
    assert_eq!(
        PhotonCommand::decode(&buf),
        Ok(PhotonCommand::InternalOperationRequest(InternalOperationRequest {
            msg_type: MessageType::InternalOperationRequest,
            opcode: 0xe6,
            values: one_parameter(),
        }))
    );
    buf[1] = 7;
    assert_eq!(
        PhotonCommand::decode(&buf),
        Ok(PhotonCommand::InternalOperationResponse(InternalOperationResponse {
            msg_type: MessageType::InternalOperationResponse,
            opcode: 0xe6,
            values: one_parameter(),
        }))
    );
}

#[test]
fn decode_operation_with_flagged_marker() {
    let buf = [0xfdu8, 2, 1, 0, 0];
    assert_eq!(
        PhotonCommand::decode(&buf),
        Ok(PhotonCommand::Operation(Operation {
            msg_type: MessageType::Operation,
            opcode: 1,
            values: BTreeMap::new(),
        }))
    );
}

#[test]
fn decode_operation_response() {
    // opcode 0xe6, return code 0x0102, debug "no", one parameter
    let buf = [
        0xf3u8, 3, 0xe6, 1, 2, 115, 0, 2, b'n', b'o', 0, 1, 5, 105, 0xff, 0xff, 0xff, 0xff,
    ];
    assert_eq!(
        PhotonCommand::decode(&buf),
        Ok(PhotonCommand::OperationResponse(OperationResponse {
            opcode: 0xe6,
            retcode: 0x0102,
            dbg_msg: Some(Value::String(String::from("no"))),
            parameters: one_parameter(),
        }))
    );
}

#[test]
fn decode_operation_response_without_debug_value() {
    let buf = [0xf3u8, 3, 9, 0xff, 0xfe, 42, 0, 0];
    assert_eq!(
        PhotonCommand::decode(&buf),
        Ok(PhotonCommand::OperationResponse(OperationResponse {
            opcode: 9,
            retcode: 0xfffe,
            dbg_msg: None,
            parameters: BTreeMap::new(),
        }))
    );
}

#[test]
fn decode_operation_response_errors() {
    assert_eq!(
        PhotonCommand::decode(&[0xf3, 3, 9, 0, 0]),
        Err(DecodeError::TruncatedInput)
    );
    assert_eq!(
        PhotonCommand::decode(&[0xf3, 3, 9, 0, 0, 42]),
        Err(DecodeError::TruncatedInput)
    );
    assert_eq!(
        PhotonCommand::decode(&[0xf3, 3, 9, 0, 0, 102, 0, 0]),
        Err(DecodeError::UnsupportedValueType(GpType::Float))
    );
}

#[test]
fn decode_encrypted_keeps_only_the_length() {
    let buf = [0xf3u8, 0x82, 1, 2, 3, 4];
    assert_eq!(
        PhotonCommand::decode(&buf),
        Ok(PhotonCommand::Encrypted(Encrypted { packet_len: 6 }))
    );
    assert_eq!(
        PhotonCommand::decode(&[0xfd, 0x80]),
        Ok(PhotonCommand::Encrypted(Encrypted { packet_len: 2 }))
    );
    assert_eq!(
        PhotonCommand::decode(&[0xfd, 0xff, 0]),
        Ok(PhotonCommand::Encrypted(Encrypted { packet_len: 3 }))
    );
}

#[test]
fn decode_unknown_message_type() {
    assert_eq!(
        PhotonCommand::decode(&[0xf3, 0x81, 0]),
        Err(DecodeError::UnknownMessageType(0x81))
    );
    assert_eq!(
        PhotonCommand::decode(&[0xf3, 5, 0]),
        Err(DecodeError::UnknownMessageType(5))
    );
    assert_eq!(
        PhotonCommand::decode(&[0xf3, 0x7f, 0]),
        Err(DecodeError::UnknownMessageType(0x7f))
    );
}

#[test]
fn decode_unknown_marker() {
    assert_eq!(
        PhotonCommand::decode(&[0xf2, 2, 0, 0, 0]),
        Err(DecodeError::UnknownMessageType(0xf2))
    );
    assert_eq!(
        PhotonCommand::decode(&[0]),
        Err(DecodeError::UnknownMessageType(0))
    );
}

#[test]
fn decode_messages_without_a_decoding() {
    assert_eq!(
        PhotonCommand::decode(&[0xf3, 8, 0]),
        Err(DecodeError::UnsupportedMessageType(MessageType::Message))
    );
    assert_eq!(
        PhotonCommand::decode(&[0xf3, 9, 0]),
        Err(DecodeError::UnsupportedMessageType(MessageType::RawMessage))
    );
}

#[test]
fn decode_short_envelopes() {
    assert_eq!(PhotonCommand::decode(&[]), Err(DecodeError::TruncatedInput));
    assert_eq!(PhotonCommand::decode(&[0xf3]), Err(DecodeError::TruncatedInput));
    assert_eq!(PhotonCommand::decode(&[0xf3, 2]), Err(DecodeError::TruncatedInput));
    assert_eq!(PhotonCommand::decode(&[0xf3, 2, 1]), Err(DecodeError::TruncatedInput));
    assert_eq!(PhotonCommand::decode(&[0xf3, 2, 1, 0]), Err(DecodeError::TruncatedInput));
}

#[test]
fn serialize_messages_exact_bytes() {
    assert_eq!(
        PhotonCommand::InitResponse(InitResponse { acked_num: 0x2a }).serialize(),
        Some(vec![0xf3, 1, 0x2a])
    );
    assert_eq!(
        PhotonCommand::Operation(Operation {
            msg_type: MessageType::Operation,
            opcode: 0xe6,
            values: one_parameter(),
        })
        .serialize(),
        Some(vec![0xf3, 2, 0xe6, 0, 1, 5, 105, 0xff, 0xff, 0xff, 0xff])
    );
    assert_eq!(
        PhotonCommand::OperationResponse(OperationResponse {
            opcode: 0xe6,
            retcode: 0x0102,
            dbg_msg: Some(Value::String(String::from("no"))),
            parameters: one_parameter(),
        })
        .serialize(),
        Some(vec![
            0xf3, 3, 0xe6, 1, 2, 115, 0, 2, b'n', b'o', 0, 1, 5, 105, 0xff, 0xff, 0xff, 0xff,
        ])
    );
    let mut init = vec![0xf3u8, 0, 1, 6, 0x0e, 0x41, 2, 3, 0];
    init.extend(b"app");
    assert_eq!(
        PhotonCommand::Init(Init {
            protocol_version: [1, 6],
            client_sdk_id: 7,
            client_version: [4, 1, 2, 3],
            app_id: String::from("app"),
        })
        .serialize(),
        Some(init)
    );
}

#[test]
fn serialize_parameters_by_increasing_key() {
    let mut values = BTreeMap::new();
    values.insert(9u8, Some(Value::Byte(1)));
    values.insert(2u8, None);
    values.insert(255u8, Some(Value::Byte(3)));
    values.insert(0u8, Some(Value::Byte(4)));
    assert_eq!(
        PhotonCommand::Event(Event { msg_type: MessageType::Event, opcode: 1, values }).serialize(),
        Some(vec![0xf3, 4, 1, 0, 4, 0, 98, 4, 2, 42, 9, 98, 1, 255, 98, 3])
    );
}

#[test]
fn serialize_refuses_messages_without_wire_form() {
    assert_eq!(PhotonCommand::Encrypted(Encrypted { packet_len: 6 }).serialize(), None);
    let mut values = BTreeMap::new();
    values.insert(9u8, Some(Value::Boolean(true)));
    assert_eq!(
        PhotonCommand::Event(Event { msg_type: MessageType::Event, opcode: 1, values }).serialize(),
        None
    );
    assert_eq!(
        PhotonCommand::Init(Init {
            protocol_version: [1, 6],
            client_sdk_id: 128,
            client_version: [4, 1, 2, 3],
            app_id: String::new(),
        })
        .serialize(),
        None
    );
    assert_eq!(
        PhotonCommand::Init(Init {
            protocol_version: [1, 6],
            client_sdk_id: 1,
            client_version: [4, 16, 2, 3],
            app_id: String::new(),
        })
        .serialize(),
        None
    );
}

#[test]
fn messages_round_trip() {
    let mut values = BTreeMap::new();
    values.insert(1u8, Some(Value::ByteArray(vec![1, 2, 3])));
    values.insert(77u8, Some(Value::HashTable(vec![(Some(Value::Integer(1)), None)])));
    let messages = vec![
        PhotonCommand::InitResponse(InitResponse { acked_num: 0 }),
        PhotonCommand::Operation(Operation {
            msg_type: MessageType::Operation,
            opcode: 3,
            values: values.clone(),
        }),
        PhotonCommand::Event(Event { msg_type: MessageType::Event, opcode: 4, values: values.clone() }),
        PhotonCommand::InternalOperationRequest(InternalOperationRequest {
            msg_type: MessageType::InternalOperationRequest,
            opcode: 5,
            values: values.clone(),
        }),
        PhotonCommand::InternalOperationResponse(InternalOperationResponse {
            msg_type: MessageType::InternalOperationResponse,
            opcode: 6,
            values: BTreeMap::new(),
        }),
        PhotonCommand::OperationResponse(OperationResponse {
            opcode: 7,
            retcode: 0,
            dbg_msg: None,
            parameters: values,
        }),
        PhotonCommand::Init(Init {
            protocol_version: [0, 255],
            client_sdk_id: 127,
            client_version: [15, 15, 255, 0],
            app_id: String::from("é"),
        }),
    ];
    for m in messages {
        let bytes = m.serialize().unwrap();
        assert_eq!(PhotonCommand::decode(&bytes), Ok(m));
    }
}
