use btrs::message::{MessageType, PeerError};
use btrs::peer::{check_handshake, encode_batch, handshake_bytes, ListenerAction, PeerState, Requester};
use btrs::pieces::{PieceError, PieceRequest};
use btrs::work::{BlockResponse, BlockStatus, MAX_IN_FLIGHT};

const MOCK_INFO_HASH: [u8; 20] = *b"12345678901234567890";
const MOCK_PEER_ID: [u8; 20] = *b"-MOCK0-1234567890123";
const MOCK_CLIENT_ID: [u8; 20] = *b"-TEST0-1234567890123";

fn mock_reply(info_hash: &[u8; 20]) -> [u8; 68] {
    let mut request = Vec::new();
    request.push(19u8);
    request.extend_from_slice(b"BitTorrent protocol");
    request.extend_from_slice(&[0u8; 8]);
    request.extend_from_slice(info_hash);
    request.extend_from_slice(&MOCK_PEER_ID);
    request.try_into().unwrap()
}

#[test]
fn handshake_layout() {
    let bytes = handshake_bytes(&MOCK_INFO_HASH, &MOCK_CLIENT_ID);
    assert_eq!(bytes.len(), 68);
    assert_eq!(bytes[0], 19);
    assert_eq!(&bytes[1..20], b"BitTorrent protocol");
    assert_eq!(&bytes[20..28], &[0u8; 8]);
    assert_eq!(&bytes[28..48], &MOCK_INFO_HASH);
    assert_eq!(&bytes[48..68], &MOCK_CLIENT_ID);
}

#[test]
fn handshake_accept() {
    let reply = mock_reply(&MOCK_INFO_HASH);
    assert_eq!(check_handshake(&reply, &MOCK_INFO_HASH), Ok(()));
    // Steady state opens with Interested then Unchoke.
    let mut state = PeerState::new();
    let frames = state.announce_intent();
    assert_eq!(frames, vec![0, 0, 0, 1, 2, 0, 0, 0, 1, 1]);
    assert!(state.is_interested);
    assert!(!state.is_choking);
}

#[test]
fn handshake_reject() {
    let reply = mock_reply(b"ZZZZZZZZZZZZZZZZZZZZ");
    assert_eq!(
        check_handshake(&reply, &MOCK_INFO_HASH),
        Err(PeerError::InfoHashMismatch)
    );
}

#[test]
fn bitfield_availability() {
    let mut state = PeerState::new();
    state.bitfield = vec![0b10000000, 0b01000000];
    assert!(state.has_piece(0));
    assert!(!state.has_piece(1));
    assert!(state.has_piece(9));
    assert!(!state.has_piece(8));
    // Past the end of the bitfield nothing is available.
    assert!(!state.has_piece(16));
}

#[test]
fn initial_peer_state() {
    let state = PeerState::new();
    assert!(state.is_choked && state.is_choking);
    assert!(!state.is_interested && !state.is_peer_interested);
    assert!(state.bitfield.is_empty());
}

#[test]
fn have_sets_one_bit() {
    let mut state = PeerState::new();
    state.bitfield = vec![0b10000000];
    state.set_piece(3);
    assert_eq!(state.bitfield, vec![0b10010000]);
    state.set_piece(12);
    assert_eq!(state.bitfield, vec![0b10010000, 0b00001000]);
    assert!(state.has_piece(12) && state.has_piece(3) && state.has_piece(0));
    assert!(!state.has_piece(11));
}

#[test]
fn listener_applies_messages() {
    let mut state = PeerState::new();
    assert!(matches!(
        state.on_message(MessageType::Bitfield(vec![0xff]), true),
        ListenerAction::Continue
    ));
    assert_eq!(state.bitfield, vec![0xff]);
    assert!(matches!(state.on_message(MessageType::Unchoke, false), ListenerAction::Continue));
    assert!(!state.is_choked);
    assert!(matches!(state.on_message(MessageType::Choke, false), ListenerAction::Continue));
    assert!(state.is_choked);
    state.on_message(MessageType::Interested, false);
    assert!(state.is_peer_interested);
    state.on_message(MessageType::NotInterested, false);
    assert!(!state.is_peer_interested);
    match state.on_message(
        MessageType::Piece {
            index: 2,
            begin: 16384,
            block: vec![7, 8],
        },
        false,
    ) {
        ListenerAction::Forward(b) => {
            assert_eq!((b.index, b.begin, b.block), (2, 16384, vec![7, 8]));
        }
        _ => panic!("piece not forwarded"),
    }
    state.on_message(MessageType::Have(9), false);
    assert!(state.has_piece(9));
}

#[test]
fn late_bitfield_closes_session() {
    let mut state = PeerState::new();
    state.on_message(MessageType::KeepAlive, true);
    assert!(matches!(
        state.on_message(MessageType::Bitfield(vec![0xff]), false),
        ListenerAction::Close(PeerError::UnexpectedBitfield)
    ));
    assert!(state.bitfield.is_empty());
}

#[test]
fn requester_reports_unavailable_piece() {
    let state = PeerState::new();
    let mut requester = Requester::new();
    let resp = requester
        .assign(PieceRequest { piece_index: 3, length_bytes: 100 }, &state)
        .expect("piece should come back");
    assert_eq!(resp.piece_index, 3);
    assert_eq!(resp.result, Err(PieceError::PieceUnavailable));
    assert!(requester.is_idle());
}

#[test]
fn requester_keeps_in_flight_bounded() {
    let mut state = PeerState::new();
    state.bitfield = vec![0xff];
    let mut requester = Requester::new();
    assert!(requester
        .assign(PieceRequest { piece_index: 1, length_bytes: 10 * 16384 }, &state)
        .is_none());
    // Choked: nothing is requested.
    assert!(requester.next_requests(&state).is_empty());
    state.is_choked = false;
    let first = requester.next_requests(&state);
    assert_eq!(first.len(), MAX_IN_FLIGHT);
    assert_eq!(
        first[0],
        MessageType::Request { index: 1, begin: 0, length: 16384 }
    );
    assert_eq!(
        first[4],
        MessageType::Request { index: 1, begin: 4 * 16384, length: 16384 }
    );
    // All slots are taken until a block arrives.
    assert!(requester.next_requests(&state).is_empty());
    assert!(requester.deliver(BlockResponse { index: 1, begin: 16384, block: vec![0; 16384] }));
    let next = requester.next_requests(&state);
    assert_eq!(next, vec![MessageType::Request { index: 1, begin: 5 * 16384, length: 16384 }]);
    let work = requester.current.as_ref().unwrap();
    let in_flight = work
        .blocks
        .iter()
        .filter(|b| b.status == BlockStatus::InProgress)
        .count();
    assert_eq!(in_flight, MAX_IN_FLIGHT);
    let bytes = encode_batch(&next);
    assert_eq!(bytes, vec![0, 0, 0, 13, 6, 0, 0, 0, 1, 0, 1, 0x40, 0, 0, 0, 0x40, 0]);
}

#[test]
fn requester_hands_over_complete_piece() {
    let mut state = PeerState::new();
    state.bitfield = vec![0x80];
    state.is_choked = false;
    let mut requester = Requester::new();
    requester.assign(PieceRequest { piece_index: 0, length_bytes: 3 }, &state);
    assert!(requester.finish().is_none());
    assert_eq!(requester.next_requests(&state).len(), 1);
    assert!(requester.deliver(BlockResponse { index: 0, begin: 0, block: vec![1, 2, 3] }));
    let resp = requester.finish().expect("complete piece");
    assert_eq!(resp.piece_index, 0);
    assert_eq!(resp.result, Ok(vec![1, 2, 3]));
    assert!(requester.is_idle());
}
