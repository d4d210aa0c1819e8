//! One peer session's decisions: the handshake, the state that the listener
//! keeps from incoming messages, and what the requester asks for next.
use vstd::prelude::*;

use crate::message::{encodable, encode, MessageModel, MessageType, PeerError, MAX_MESSAGE_LENGTH};
use crate::pieces::{PieceError, PieceRequest, PieceResponse};
use crate::work::{assembled, filled, requested_next, count_status, free_slots, is_request_of, min_nat, BlockResponse, BlockStatus, PieceWork};

verus! {

/// Length of a handshake in bytes.
pub const HANDSHAKE_LENGTH: usize = 68;

/// The protocol name that opens a handshake, `BitTorrent protocol`.
pub open spec fn protocol_name() -> Seq<u8> {
    seq![66u8, 105, 116, 84, 111, 114, 114, 101, 110, 116, 32, 112, 114, 111, 116, 111, 99, 111, 108]
}

/// The handshake that announces `info_hash` and `peer_id`: the name's length,
/// the name, eight reserved zero bytes, the info hash and the peer id.
pub open spec fn handshake(info_hash: Seq<u8>, peer_id: Seq<u8>) -> Seq<u8> {
    seq![19u8] + protocol_name() + Seq::new(8, |i: int| 0u8) + info_hash + peer_id
}

pub fn handshake_bytes(info_hash: &[u8; 20], peer_id: &[u8; 20]) -> (r: Vec<u8>)
    ensures
        r@ == handshake(info_hash@, peer_id@),
        r@.len() == HANDSHAKE_LENGTH,
{
    let mut out: Vec<u8> = vec![19u8, 66, 105, 116, 84, 111, 114, 114, 101, 110, 116, 32, 112, 114, 111, 116, 111, 99, 111, 108];
    let mut i: usize = 0;
    while i < 8
        invariant
            i <= 8,
            out@ == seq![19u8] + protocol_name() + Seq::new(i as nat, |k: int| 0u8),
        decreases 8 - i,
    {
        out.push(0u8);
        i += 1;
        assert(out@ =~= seq![19u8] + protocol_name() + Seq::new(i as nat, |k: int| 0u8));
    }
    let ghost head = out@;
    out.extend_from_slice(info_hash.as_slice());
    out.extend_from_slice(peer_id.as_slice());
    assert(out@ =~= head + info_hash@ + peer_id@);
    out
}

/// Accepts a received handshake only if it names the same info hash.
pub fn check_handshake(response: &[u8; 68], info_hash: &[u8; 20]) -> (r: Result<(), PeerError>)
    ensures
        r is Ok <==> response@.subrange(28, 48) == info_hash@,
        r is Err ==> r == Err::<(), PeerError>(PeerError::InfoHashMismatch),
{
    let mut i: usize = 0;
    while i < 20
        invariant
            i <= 20,
            forall|k: int| 0 <= k < i ==> response@[28 + k] == info_hash@[k],
        decreases 20 - i,
    {
        if response[28 + i] != info_hash[i] {
            assert(response@.subrange(28, 48)[i as int] != info_hash@[i as int]);
            return Err(PeerError::InfoHashMismatch);
        }
        i += 1;
    }
    assert(response@.subrange(28, 48) =~= info_hash@);
    Ok(())
}

/// What we know of the remote peer and what we told it.
#[derive(Clone, Debug)]
pub struct PeerState {
    /// The peer chokes us.
    pub is_choked: bool,
    /// We choke the peer.
    pub is_choking: bool,
    pub is_peer_interested: bool,
    pub is_interested: bool,
    /// Piece availability, bit `i` for piece `i`, most significant bit first.
    pub bitfield: Vec<u8>,
}

/// Bit `i` of a bitfield, most significant bit of each byte first; bits past
/// its end are clear.
pub open spec fn bit_set(bitfield: Seq<u8>, i: int) -> bool {
    i / 8 < bitfield.len() && (bitfield[i / 8] >> ((7 - i % 8) as u8)) & 1u8 == 1u8
}

/// What the listener does after a message.
pub enum ListenerAction {
    Continue,
    /// Hand a received block to the requester.
    Forward(BlockResponse),
    /// Close the session.
    Close(PeerError),
}

impl PeerState {
    /// Both sides choke and neither is interested; no piece is known.
    pub fn new() -> (r: PeerState)
        ensures
            r.is_choked && r.is_choking && !r.is_peer_interested && !r.is_interested,
            r.bitfield@.len() == 0,
    {
        PeerState {
            is_choked: true,
            is_choking: true,
            is_peer_interested: false,
            is_interested: false,
            bitfield: Vec::new(),
        }
    }

    pub fn has_piece(&self, piece_index: usize) -> (r: bool)
        ensures
            r == bit_set(self.bitfield@, piece_index as int),
    {
        let byte_offset = piece_index / 8;
        if byte_offset >= self.bitfield.len() {
            return false;
        }
        let bit_offset = (7 - piece_index % 8) as u8;
        (self.bitfield[byte_offset] >> bit_offset) & 1 == 1
    }

    /// Records that the peer has piece `index`, growing the bitfield with clear
    /// bytes where it is too short (up to the longest bitfield a frame holds).
    pub fn set_piece(&mut self, index: u32)
        ensures
            final(self).is_choked == old(self).is_choked,
            final(self).is_choking == old(self).is_choking,
            final(self).is_peer_interested == old(self).is_peer_interested,
            final(self).is_interested == old(self).is_interested,
            (index / 8 < old(self).bitfield@.len() || index / 8 < MAX_MESSAGE_LENGTH) ==> bit_set(
                final(self).bitfield@,
                index as int,
            ),
            forall|j: int|
                0 <= j && j != index ==> #[trigger] bit_set(final(self).bitfield@, j) == bit_set(
                    old(self).bitfield@,
                    j,
                ),
            !(index / 8 < old(self).bitfield@.len() || index / 8 < MAX_MESSAGE_LENGTH) ==> final(self).bitfield@ == old(self).bitfield@,
    {
        let byte_offset = (index / 8) as usize;
        if byte_offset >= self.bitfield.len() && byte_offset >= MAX_MESSAGE_LENGTH as usize {
            return;
        }
        let ghost start = self.bitfield@;
        while self.bitfield.len() <= byte_offset
            invariant
                start == old(self).bitfield@,
                self.is_choked == old(self).is_choked,
                self.is_choking == old(self).is_choking,
                self.is_peer_interested == old(self).is_peer_interested,
                self.is_interested == old(self).is_interested,
                byte_offset < MAX_MESSAGE_LENGTH || byte_offset < start.len(),
                self.bitfield@.len() >= start.len(),
                self.bitfield@.subrange(0, start.len() as int) == start,
                forall|k: int| start.len() <= k < self.bitfield@.len() ==> #[trigger] self.bitfield@[k] == 0u8,
            decreases byte_offset + 1 - self.bitfield@.len(),
        {
            let ghost before = self.bitfield@;
            self.bitfield.push(0u8);
            assert(self.bitfield@.subrange(0, start.len() as int) =~= before.subrange(0, start.len() as int));
        }
        let ghost grown = self.bitfield@;
        let shift = (index % 8) as u8;
        let old_byte = self.bitfield[byte_offset];
        let new_byte = old_byte | (0x80u8 >> shift);
        self.bitfield.set(byte_offset, new_byte);
        proof {
            let k = (index % 8) as u8;
            assert(((old_byte | (0x80u8 >> k)) >> ((7 - k) as u8)) & 1u8 == 1u8) by (bit_vector)
                requires
                    k < 8,
            ;
            assert forall|j: int| 0 <= j && j != index implies #[trigger] bit_set(self.bitfield@, j) == bit_set(start, j) by {
                assert(bit_set(grown, j) == bit_set(start, j)) by {
                    if j / 8 < start.len() {
                        assert(grown[j / 8] == start.subrange(0, start.len() as int)[j / 8]);
                    } else if j / 8 < grown.len() {
                        let z = grown[j / 8];
                        let s = ((7 - j % 8) as u8);
                        assert(z == 0u8);
                        assert((0u8 >> s) & 1u8 == 0u8) by (bit_vector);
                    }
                }
                if j / 8 == byte_offset {
                    let m = (j % 8) as u8;
                    assert(m != k);
                    assert(m < 8 && k < 8 && m != k ==> ((old_byte | (0x80u8 >> k)) >> ((7 - m) as u8)) & 1u8 == (old_byte >> ((7 - m) as u8)) & 1u8) by (bit_vector);
                }
            }
        }
    }

    /// Applies one message from the peer. `first` says whether it is the first
    /// message after the handshake, the only place where a bitfield may come.
    pub fn on_message(&mut self, msg: MessageType, first: bool) -> (r: ListenerAction)
        ensures
            match msg@ {
                MessageModel::Choke => final(self).is_choked && r is Continue,
                MessageModel::Unchoke => !final(self).is_choked && r is Continue,
                MessageModel::Interested => final(self).is_peer_interested && r is Continue,
                MessageModel::NotInterested => !final(self).is_peer_interested && r is Continue,
                MessageModel::Have(i) => r is Continue && (forall|j: int|
                    0 <= j && j != i ==> #[trigger] bit_set(final(self).bitfield@, j) == bit_set(
                        old(self).bitfield@,
                        j,
                    )) && ((i / 8 < old(self).bitfield@.len() || i / 8 < MAX_MESSAGE_LENGTH) ==> bit_set(
                    final(self).bitfield@,
                    i as int,
                )),
                MessageModel::Bitfield(b) => if first {
                    r is Continue && final(self).bitfield@ == b
                } else {
                    r == ListenerAction::Close(PeerError::UnexpectedBitfield) && final(self).bitfield@
                        == old(self).bitfield@
                },
                MessageModel::Piece { index, begin, block } => (r matches ListenerAction::Forward(b)
                    && b.index == index && b.begin == begin && b.block@ == block),
                _ => r is Continue,
            },
            !(msg is Have) && !(msg is Bitfield) ==> final(self).bitfield@ == old(self).bitfield@,
            !(msg is Choke) && !(msg is Unchoke) ==> final(self).is_choked == old(self).is_choked,
            !(msg is Interested) && !(msg is NotInterested) ==> final(self).is_peer_interested
                == old(self).is_peer_interested,
            final(self).is_choking == old(self).is_choking,
            final(self).is_interested == old(self).is_interested,
    {
        match msg {
            MessageType::Choke => {
                self.is_choked = true;
                ListenerAction::Continue
            },
            MessageType::Unchoke => {
                self.is_choked = false;
                ListenerAction::Continue
            },
            MessageType::Interested => {
                self.is_peer_interested = true;
                ListenerAction::Continue
            },
            MessageType::NotInterested => {
                self.is_peer_interested = false;
                ListenerAction::Continue
            },
            MessageType::Have(index) => {
                self.set_piece(index);
                ListenerAction::Continue
            },
            MessageType::Bitfield(items) => {
                if first {
                    self.bitfield = items;
                    ListenerAction::Continue
                } else {
                    ListenerAction::Close(PeerError::UnexpectedBitfield)
                }
            },
            MessageType::Piece { index, begin, block } => {
                ListenerAction::Forward(BlockResponse { index, begin, block })
            },
            _ => ListenerAction::Continue,
        }
    }

    /// The frames that open the steady state, Interested then Unchoke, and the
    /// flags that they set.
    pub fn announce_intent(&mut self) -> (r: Vec<u8>)
        ensures
            r@ == encode(MessageModel::Interested) + encode(MessageModel::Unchoke),
            final(self).is_interested,
            !final(self).is_choking,
            final(self).is_choked == old(self).is_choked,
            final(self).is_peer_interested == old(self).is_peer_interested,
            final(self).bitfield@ == old(self).bitfield@,
    {
        let mut out = MessageType::Interested.to_bytes();
        let ghost head = out@;
        let tail = MessageType::Unchoke.to_bytes();
        out.extend_from_slice(tail.as_slice());
        assert(out@ =~= head + tail@);
        self.is_interested = true;
        self.is_choking = false;
        out
    }
}

/// The frames of `msgs`, one after the other.
pub open spec fn encode_all(msgs: Seq<MessageType>) -> Seq<u8>
    decreases msgs.len(),
{
    if msgs.len() == 0 {
        Seq::empty()
    } else {
        encode_all(msgs.drop_last()) + encode(msgs.last()@)
    }
}

/// Writes a batch of messages into one buffer.
pub fn encode_batch(msgs: &Vec<MessageType>) -> (r: Vec<u8>)
    requires
        forall|i: int| 0 <= i < msgs@.len() ==> encodable(#[trigger] msgs@[i]@),
    ensures
        r@ == encode_all(msgs@),
{
    let mut out: Vec<u8> = Vec::new();
    let mut i: usize = 0;
    while i < msgs.len()
        invariant
            i <= msgs@.len(),
            forall|k: int| 0 <= k < msgs@.len() ==> encodable(#[trigger] msgs@[k]@),
            out@ == encode_all(msgs@.subrange(0, i as int)),
        decreases msgs@.len() - i,
    {
        let frame = msgs[i].to_bytes();
        let ghost head = out@;
        out.extend_from_slice(frame.as_slice());
        i += 1;
        assert(msgs@.subrange(0, i as int).drop_last() =~= msgs@.subrange(0, i as int - 1));
        assert(out@ =~= head + frame@);
    }
    assert(msgs@.subrange(0, i as int) =~= msgs@);
    out
}

/// `r` carries piece `w`: its index, and its assembled bytes where they make
/// up the whole piece.
pub open spec fn handed_over(w: PieceWork, r: Option<PieceResponse>) -> bool {
    let bytes = assembled(w.blocks@, w.blocks@.len() as int);
    &&& r is Some
    &&& r->0.piece_index == w.index
    &&& bytes.len() == w.length ==> r->0.result == Ok::<Vec<u8>, PieceError>(r->0.result->Ok_0) && r->0.result->Ok_0@ == bytes
}

/// The requester's piece in hand.
pub struct Requester {
    pub current: Option<PieceWork>,
}

impl Requester {
    pub open spec fn wf(&self) -> bool {
        self.current matches Some(w) ==> w.wf()
    }

    pub fn new() -> (r: Requester)
        ensures
            r.wf(),
            r.current is None,
    {
        Requester { current: None }
    }

    /// Whether the requester should take the next piece off the queue.
    pub fn is_idle(&self) -> (r: bool)
        ensures
            r == self.current is None,
    {
        self.current.is_none()
    }

    /// Takes a piece from the queue: keeps it if the peer has it, and otherwise
    /// gives it straight back as unavailable.
    pub fn assign(&mut self, request: PieceRequest, state: &PeerState) -> (r: Option<PieceResponse>)
        requires
            old(self).wf(),
            old(self).current is None,
            request.length_bytes <= u32::MAX,
        ensures
            final(self).wf(),
            bit_set(state.bitfield@, request.piece_index as int) ==> r is None && (final(self).current matches Some(w) && w.index == request.piece_index && w.length == request.length_bytes),
            !bit_set(state.bitfield@, request.piece_index as int) ==> final(self).current is None && (r matches Some(resp) && resp.piece_index == request.piece_index
                && resp.result == Err::<Vec<u8>, PieceError>(PieceError::PieceUnavailable)),
    {
        if state.has_piece(request.piece_index as usize) {
            self.current = Some(PieceWork::from_request(&request));
            None
        } else {
            Some(PieceResponse { piece_index: request.piece_index, result: Err(PieceError::PieceUnavailable) })
        }
    }

    /// Hands over the piece in hand once every block is in, and lets it go.
    pub fn finish(&mut self) -> (r: Option<PieceResponse>)
        requires
            old(self).wf(),
        ensures
            final(self).wf(),
            (old(self).current matches Some(w) && w.complete_spec()) ==> final(self).current is None
                && handed_over(old(self).current->0, r),
            !(old(self).current matches Some(w) && w.complete_spec()) ==> final(self).current
                == old(self).current && r is None,
    {
        let done = match &self.current {
            Some(w) => w.is_complete(),
            None => false,
        };
        if done {
            match self.current.take() {
                Some(w) => Some(w.to_piece_response()),
                None => None,
            }
        } else {
            None
        }
    }

    /// Files a block that the listener forwarded, matched by its offset alone;
    /// true if a block of the piece in hand waited at that offset.
    pub fn deliver(&mut self, block: BlockResponse) -> (r: bool)
        requires
            old(self).wf(),
        ensures
            final(self).wf(),
            old(self).current is None ==> !r && final(self).current is None,
            old(self).current is Some ==> r == old(self).current->0.awaits(block.begin)
                && final(self).current is Some && final(self).current->0.index == old(self).current->0.index,
            old(self).current is Some && !r ==> final(self).current->0.blocks@ == old(self).current->0.blocks@,
            r ==> exists|j: int|
                0 <= j < old(self).current->0.blocks@.len()
                    && #[trigger] old(self).current->0.blocks@[j].offset == block.begin
                    && old(self).current->0.blocks@[j].status == BlockStatus::InProgress
                    && final(self).current->0.blocks@ == old(self).current->0.blocks@.update(
                    j,
                    filled(old(self).current->0.blocks@[j], block.block),
                ),
    {
        match &mut self.current {
            Some(w) => w.receive_block(block),
            None => false,
        }
    }

    /// The Request messages to send now: none while the peer chokes us, else
    /// the next blocks that keep at most `MAX_IN_FLIGHT` of them in flight.
    pub fn next_requests(&mut self, state: &PeerState) -> (r: Vec<MessageType>)
        requires
            old(self).wf(),
        ensures
            final(self).wf(),
            (state.is_choked || old(self).current is None) ==> r@.len() == 0 && final(self).current
                == old(self).current,
            final(self).current is Some == old(self).current is Some,
            !state.is_choked && old(self).current is Some ==> r@.len() == min_nat(
                count_status(
                    old(self).current->0.blocks@,
                    BlockStatus::Empty,
                    old(self).current->0.blocks@.len() as int,
                ),
                free_slots(old(self).current->0.blocks@),
            ),
            forall|i: int| 0 <= i < r@.len() ==> is_request_of(#[trigger] r@[i]@, old(self).current->0.index),
            !state.is_choked && old(self).current is Some ==> requested_next(
                old(self).current->0.blocks@,
                final(self).current->0.blocks@,
                old(self).current->0.index,
                r@,
            ),
    {
        if state.is_choked {
            return Vec::new();
        }
        match &mut self.current {
            Some(w) => w.request_blocks(),
            None => Vec::new(),
        }
    }
}

} // verus!
