use btrs::message::{frame_body_length, MessageType, PeerError, MAX_MESSAGE_LENGTH};

fn round_trip(message: MessageType, expected_bytes: &[u8]) {
    let actual_bytes = message.to_bytes();

    assert_eq!(actual_bytes, expected_bytes, "Serialized bytes don't match");

    let parsed = MessageType::from_bytes(&actual_bytes).unwrap();

    assert_eq!(message, parsed, "Round-trip MessageType does not match");
}

#[test]
fn test_choke_round_trip() {
    round_trip(MessageType::Choke, &vec![0, 0, 0, 1, 0]);
}

#[test]
fn test_unchoke_round_trip() {
    round_trip(MessageType::Unchoke, &vec![0, 0, 0, 1, 1]);
}

#[test]
fn test_interested_round_trip() {
    round_trip(MessageType::Interested, &vec![0, 0, 0, 1, 2]);
}

#[test]
fn test_not_interested_round_trip() {
    round_trip(MessageType::NotInterested, &vec![0, 0, 0, 1, 3]);
}

#[test]
fn test_have_round_trip() {
    round_trip(MessageType::Have(42), &{
        let mut v = vec![0, 0, 0, 5, 4];
        v.extend_from_slice(&42u32.to_be_bytes());
        v
    });
}

#[test]
fn test_bitfield_round_trip() {
    round_trip(MessageType::Bitfield(vec![0b10101010, 0b11110000]), &{
        let mut v = vec![0, 0, 0, 3, 5];
        v.extend_from_slice(&[0b10101010, 0b11110000]);
        v
    });
}

#[test]
fn test_request_round_trip() {
    round_trip(
        MessageType::Request {
            index: 1,
            begin: 2,
            length: 3,
        },
        &{
            let mut v = vec![0, 0, 0, 13, 6];
            v.extend_from_slice(&1u32.to_be_bytes());
            v.extend_from_slice(&2u32.to_be_bytes());
            v.extend_from_slice(&3u32.to_be_bytes());
            v
        },
    );
}

#[test]
fn test_piece_round_trip() {
    round_trip(
        MessageType::Piece {
            index: 42,
            begin: 0,
            block: vec![1, 2, 3, 4, 5],
        },
        &{
            let mut v = vec![0, 0, 0, 14, 7];
            v.extend_from_slice(&42u32.to_be_bytes());
            v.extend_from_slice(&0u32.to_be_bytes());
            v.extend_from_slice(&[1, 2, 3, 4, 5]);
            v
        },
    );
}

#[test]
fn test_cancel_round_trip() {
    round_trip(
        MessageType::Cancel {
            index: 1,
            begin: 2,
            length: 3,
        },
        &{
            let mut v = vec![0, 0, 0, 13, 8];
            v.extend_from_slice(&1u32.to_be_bytes());
            v.extend_from_slice(&2u32.to_be_bytes());
            v.extend_from_slice(&3u32.to_be_bytes());
            v
        },
    );
}

#[test]
fn test_port_round_trip() {
    round_trip(MessageType::Port(6881), &{
        let mut v = vec![0, 0, 0, 3, 9];
        v.extend_from_slice(&6881u16.to_be_bytes());
        v
    });
}

#[test]
fn test_keep_alive_round_trip() {
    round_trip(MessageType::KeepAlive, &vec![0, 0, 0, 0]);
}

#[test]
fn keep_alive_is_four_zero_bytes() {
    assert_eq!(MessageType::KeepAlive.to_bytes(), vec![0u8, 0, 0, 0]);
}

#[test]
fn large_index_round_trips() {
    round_trip(
        MessageType::Request {
            index: 0xDEADBEEF,
            begin: 0x01020304,
            length: 16384,
        },
        &[0, 0, 0, 13, 6, 0xDE, 0xAD, 0xBE, 0xEF, 1, 2, 3, 4, 0, 0, 0x40, 0],
    );
}

#[test]
fn empty_bitfield_round_trips() {
    round_trip(MessageType::Bitfield(vec![]), &[0, 0, 0, 1, 5]);
}

#[test]
fn unknown_id_is_malformed() {
    assert_eq!(
        MessageType::from_bytes(&[0, 0, 0, 1, 10]),
        Err(PeerError::MalformedFrame)
    );
}

#[test]
fn truncated_payload_is_malformed() {
    // A Have whose index is cut short.
    assert_eq!(
        MessageType::from_bytes(&[0, 0, 0, 3, 4, 0, 1]),
        Err(PeerError::MalformedFrame)
    );
    // A length prefix announcing more bytes than the frame holds.
    assert_eq!(
        MessageType::from_bytes(&[0, 0, 0, 5, 4, 0, 1]),
        Err(PeerError::MalformedFrame)
    );
    assert_eq!(MessageType::from_bytes(&[0, 0]), Err(PeerError::MalformedFrame));
}

#[test]
fn over_cap_is_malformed() {
    let len = MAX_MESSAGE_LENGTH + 1;
    let mut frame = len.to_be_bytes().to_vec();
    frame.push(5);
    frame.resize(4 + len as usize, 0);
    assert_eq!(MessageType::from_bytes(&frame), Err(PeerError::MalformedFrame));
    assert_eq!(frame_body_length(&len.to_be_bytes()), None);
    assert_eq!(frame_body_length(&[0, 0, 0x40, 9]), Some(16393));
}

#[test]
fn longer_payload_is_read_up_to_its_needs() {
    assert_eq!(MessageType::from_bytes(&[0, 0, 0, 2, 0, 0]), Ok(MessageType::Choke));
    assert_eq!(
        MessageType::from_bytes(&[0, 0, 0, 6, 4, 0, 0, 0, 7, 9]),
        Ok(MessageType::Have(7))
    );
    assert_eq!(MessageType::from_bytes(&[0, 0, 0, 4, 9, 0x1A, 0xE1, 0]), Ok(MessageType::Port(6881)));
    // Bytes past the announced length are not read.
    assert_eq!(MessageType::from_bytes(&[0, 0, 0, 1, 1, 0xff]), Ok(MessageType::Unchoke));
}
