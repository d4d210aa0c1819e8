//! Peer wire protocol frames: a 4-byte big-endian length, an id byte and a
//! payload; keep-alive is the bare zero length.
use vstd::prelude::*;
use vstd::slice::{slice_subrange, slice_to_vec};

verus! {

/// Largest frame body (id byte and payload) the decoder accepts.
pub const MAX_MESSAGE_LENGTH: u32 = 131072;

/// Errors of the peer protocol that close a session.
#[derive(Clone, Copy, Debug, PartialEq, Eq)]
pub enum PeerError {
    /// A frame whose length is over the cap, whose id is unknown, or whose
    /// bytes or payload are shorter than its length or its id calls for.
    MalformedFrame,
    /// The remote handshake names another torrent.
    InfoHashMismatch,
    /// A bitfield that came after another message.
    UnexpectedBitfield,
}

#[derive(Clone, Debug, PartialEq, Eq)]
pub enum MessageType {
    Choke,
    Unchoke,
    Interested,
    NotInterested,
    Have(u32),
    Bitfield(Vec<u8>),
    Request { index: u32, begin: u32, length: u32 },
    Piece { index: u32, begin: u32, block: Vec<u8> },
    Cancel { index: u32, begin: u32, length: u32 },
    Port(u16),
    KeepAlive,
}

/// What a message is, with its byte payloads as sequences.
pub enum MessageModel {
    Choke,
    Unchoke,
    Interested,
    NotInterested,
    Have(u32),
    Bitfield(Seq<u8>),
    Request { index: u32, begin: u32, length: u32 },
    Piece { index: u32, begin: u32, block: Seq<u8> },
    Cancel { index: u32, begin: u32, length: u32 },
    Port(u16),
    KeepAlive,
}

impl View for MessageType {
    type V = MessageModel;

    open spec fn view(&self) -> MessageModel {
        match self {
            MessageType::Choke => MessageModel::Choke,
            MessageType::Unchoke => MessageModel::Unchoke,
            MessageType::Interested => MessageModel::Interested,
            MessageType::NotInterested => MessageModel::NotInterested,
            MessageType::Have(i) => MessageModel::Have(*i),
            MessageType::Bitfield(b) => MessageModel::Bitfield(b@),
            MessageType::Request { index, begin, length } => MessageModel::Request {
                index: *index,
                begin: *begin,
                length: *length,
            },
            MessageType::Piece { index, begin, block } => MessageModel::Piece {
                index: *index,
                begin: *begin,
                block: block@,
            },
            MessageType::Cancel { index, begin, length } => MessageModel::Cancel {
                index: *index,
                begin: *begin,
                length: *length,
            },
            MessageType::Port(p) => MessageModel::Port(*p),
            MessageType::KeepAlive => MessageModel::KeepAlive,
        }
    }
}

/// The big-endian bytes of `x`.
pub open spec fn be_u32(x: u32) -> Seq<u8> {
    seq![(x >> 24u32) as u8, (x >> 16u32) as u8, (x >> 8u32) as u8, x as u8]
}

pub open spec fn be_u16(x: u16) -> Seq<u8> {
    seq![(x >> 8u16) as u8, x as u8]
}

/// The big-endian `u32` that starts at `at` in `b`.
pub open spec fn u32_at(b: Seq<u8>, at: int) -> u32 {
    ((b[at] as u32) << 24u32) | ((b[at + 1] as u32) << 16u32) | ((b[at + 2] as u32) << 8u32) | (
    b[at + 3] as u32)
}

pub open spec fn u16_at(b: Seq<u8>, at: int) -> u16 {
    ((b[at] as u16) << 8u16) | (b[at + 1] as u16)
}

/// Length of the frame body (id byte and payload) that encodes `m`.
pub open spec fn body_length(m: MessageModel) -> int {
    match m {
        MessageModel::KeepAlive => 0,
        MessageModel::Have(_) => 5,
        MessageModel::Bitfield(b) => b.len() as int + 1,
        MessageModel::Request { .. } => 13,
        MessageModel::Piece { block, .. } => block.len() as int + 9,
        MessageModel::Cancel { .. } => 13,
        MessageModel::Port(_) => 3,
        _ => 1,
    }
}

/// A message that fits in one frame the decoder takes.
pub open spec fn well_formed(m: MessageModel) -> bool {
    body_length(m) <= MAX_MESSAGE_LENGTH
}

/// A message whose body length fits the 4-byte length prefix.
pub open spec fn encodable(m: MessageModel) -> bool {
    body_length(m) <= u32::MAX
}

/// The frame that encodes `m`.
pub open spec fn encode(m: MessageModel) -> Seq<u8> {
    let head = be_u32(body_length(m) as u32);
    match m {
        MessageModel::KeepAlive => head,
        MessageModel::Choke => head.push(0),
        MessageModel::Unchoke => head.push(1),
        MessageModel::Interested => head.push(2),
        MessageModel::NotInterested => head.push(3),
        MessageModel::Have(i) => head.push(4) + be_u32(i),
        MessageModel::Bitfield(b) => head.push(5) + b,
        MessageModel::Request { index, begin, length } => head.push(6) + be_u32(index) + be_u32(
            begin,
        ) + be_u32(length),
        MessageModel::Piece { index, begin, block } => head.push(7) + be_u32(index) + be_u32(begin)
            + block,
        MessageModel::Cancel { index, begin, length } => head.push(8) + be_u32(index) + be_u32(
            begin,
        ) + be_u32(length),
        MessageModel::Port(p) => head.push(9) + be_u16(p),
    }
}

/// The message whose id is `id` and whose payload is `p`, if the payload is
/// at least as long as the id calls for; bytes past that are not read.
pub open spec fn decode_body(id: u8, p: Seq<u8>) -> Option<MessageModel> {
    if id == 0 {
        Some(MessageModel::Choke)
    } else if id == 1 {
        Some(MessageModel::Unchoke)
    } else if id == 2 {
        Some(MessageModel::Interested)
    } else if id == 3 {
        Some(MessageModel::NotInterested)
    } else if id == 4 && p.len() >= 4 {
        Some(MessageModel::Have(u32_at(p, 0)))
    } else if id == 5 {
        Some(MessageModel::Bitfield(p))
    } else if id == 6 && p.len() >= 12 {
        Some(MessageModel::Request { index: u32_at(p, 0), begin: u32_at(p, 4), length: u32_at(p, 8) })
    } else if id == 7 && p.len() >= 8 {
        Some(MessageModel::Piece { index: u32_at(p, 0), begin: u32_at(p, 4), block: p.subrange(8, p.len() as int) })
    } else if id == 8 && p.len() >= 12 {
        Some(MessageModel::Cancel { index: u32_at(p, 0), begin: u32_at(p, 4), length: u32_at(p, 8) })
    } else if id == 9 && p.len() >= 2 {
        Some(MessageModel::Port(u16_at(p, 0)))
    } else {
        None
    }
}

/// The message that the frame `b` holds: a length within the cap, at least
/// `4 + length` bytes (those past it are not read), a known id and a payload
/// long enough for it.
pub open spec fn decode(b: Seq<u8>) -> Option<MessageModel> {
    if b.len() < 4 {
        None
    } else {
        let len = u32_at(b, 0);
        if len > MAX_MESSAGE_LENGTH || b.len() < 4 + len {
            None
        } else if len == 0 {
            Some(MessageModel::KeepAlive)
        } else {
            decode_body(b[4], b.subrange(5, 4 + len))
        }
    }
}

proof fn lemma_be_u32(x: u32)
    ensures
        u32_at(be_u32(x), 0) == x,
{
    let s = be_u32(x);
    let (b0, b1, b2, b3) = ((x >> 24u32) as u8, (x >> 16u32) as u8, (x >> 8u32) as u8, x as u8);
    assert(s[0] == b0 && s[1] == b1 && s[2] == b2 && s[3] == b3);
    assert((((x >> 24u32) as u8 as u32) << 24u32) | (((x >> 16u32) as u8 as u32) << 16u32) | ((
    (x >> 8u32) as u8 as u32) << 8u32) | (x as u8 as u32) == x) by (bit_vector);
}

proof fn lemma_be_u16(x: u16)
    ensures
        u16_at(be_u16(x), 0) == x,
{
    let s = be_u16(x);
    assert(s[0] == (x >> 8u16) as u8 && s[1] == x as u8);
    assert((((x >> 8u16) as u8 as u16) << 8u16) | (x as u8 as u16) == x) by (bit_vector);
}

/// `u32_at` reads the same four bytes wherever they stand.
proof fn lemma_u32_at_shift(a: Seq<u8>, b: Seq<u8>, at: int)
    requires
        0 <= at,
        at + 4 <= b.len(),
        a =~= b.subrange(at, at + 4),
    ensures
        u32_at(b, at) == u32_at(a, 0),
{
}

/// Every well-formed message comes back unchanged from its frame.
pub proof fn lemma_decode_encode(m: MessageModel)
    requires
        well_formed(m),
    ensures
        decode(encode(m)) == Some(m),
{
    let e = encode(m);
    let len = body_length(m) as u32;
    lemma_be_u32(len);
    assert(e.subrange(0, 4) =~= be_u32(len));
    lemma_u32_at_shift(be_u32(len), e, 0);
    assert(u32_at(e, 0) == len);
    let p = e.subrange(5, e.len() as int);
    match m {
        MessageModel::Have(i) => {
            assert(p =~= be_u32(i));
            lemma_be_u32(i);
        },
        MessageModel::Bitfield(b) => {
            assert(p =~= b);
        },
        MessageModel::Request { index, begin, length } => {
            lemma_be_u32(index);
            lemma_be_u32(begin);
            lemma_be_u32(length);
            lemma_u32_at_shift(be_u32(index), p, 0);
            lemma_u32_at_shift(be_u32(begin), p, 4);
            lemma_u32_at_shift(be_u32(length), p, 8);
        },
        MessageModel::Piece { index, begin, block } => {
            lemma_be_u32(index);
            lemma_be_u32(begin);
            lemma_u32_at_shift(be_u32(index), p, 0);
            lemma_u32_at_shift(be_u32(begin), p, 4);
            assert(p.subrange(8, p.len() as int) =~= block);
        },
        MessageModel::Cancel { index, begin, length } => {
            lemma_be_u32(index);
            lemma_be_u32(begin);
            lemma_be_u32(length);
            lemma_u32_at_shift(be_u32(index), p, 0);
            lemma_u32_at_shift(be_u32(begin), p, 4);
            lemma_u32_at_shift(be_u32(length), p, 8);
        },
        MessageModel::Port(x) => {
            assert(p =~= be_u16(x));
            lemma_be_u16(x);
        },
        _ => {},
    }
}

/// A keep-alive is four zero bytes.
pub proof fn lemma_keep_alive_frame()
    ensures
        encode(MessageModel::KeepAlive) == seq![0u8, 0u8, 0u8, 0u8],
{
    assert((0u32 >> 24u32) as u8 == 0 && (0u32 >> 16u32) as u8 == 0 && (0u32 >> 8u32) as u8 == 0
        && 0u32 as u8 == 0) by (bit_vector);
    assert(encode(MessageModel::KeepAlive) =~= seq![0u8, 0u8, 0u8, 0u8]);
}

fn push_u32(out: &mut Vec<u8>, x: u32)
    ensures
        final(out)@ == old(out)@ + be_u32(x),
{
    out.push((x >> 24) as u8);
    out.push((x >> 16) as u8);
    out.push((x >> 8) as u8);
    out.push(x as u8);
    assert(final(out)@ =~= old(out)@ + be_u32(x));
}

fn read_u32(b: &[u8], at: usize) -> (r: u32)
    requires
        at + 4 <= b@.len(),
    ensures
        r == u32_at(b@, at as int),
{
    ((b[at] as u32) << 24) | ((b[at + 1] as u32) << 16) | ((b[at + 2] as u32) << 8) | (b[at
        + 3] as u32)
}

fn extend(out: &mut Vec<u8>, tail: &Vec<u8>)
    ensures
        final(out)@ == old(out)@ + tail@,
{
    let mut i: usize = 0;
    while i < tail.len()
        invariant
            i <= tail@.len(),
            out@ == old(out)@ + tail@.subrange(0, i as int),
        decreases tail@.len() - i,
    {
        out.push(tail[i]);
        i += 1;
        assert(out@ =~= old(out)@ + tail@.subrange(0, i as int));
    }
    assert(tail@.subrange(0, i as int) =~= tail@);
}

impl MessageType {
    /// The frame that carries this message.
    pub fn to_bytes(&self) -> (r: Vec<u8>)
        requires
            encodable(self@),
        ensures
            r@ == encode(self@),
    {
        let mut message: Vec<u8> = Vec::new();
        match self {
            MessageType::Choke => {
                push_u32(&mut message, 1);
                message.push(0u8);
            },
            MessageType::Unchoke => {
                push_u32(&mut message, 1);
                message.push(1u8);
            },
            MessageType::Interested => {
                push_u32(&mut message, 1);
                message.push(2u8);
            },
            MessageType::NotInterested => {
                push_u32(&mut message, 1);
                message.push(3u8);
            },
            MessageType::Have(idx) => {
                push_u32(&mut message, 5);
                message.push(4u8);
                push_u32(&mut message, *idx);
            },
            MessageType::Bitfield(items) => {
                push_u32(&mut message, items.len() as u32 + 1);
                message.push(5u8);
                extend(&mut message, items);
            },
            MessageType::Request { index, begin, length } => {
                push_u32(&mut message, 13);
                message.push(6u8);
                push_u32(&mut message, *index);
                push_u32(&mut message, *begin);
                push_u32(&mut message, *length);
            },
            MessageType::Piece { index, begin, block } => {
                push_u32(&mut message, 9 + block.len() as u32);
                message.push(7u8);
                push_u32(&mut message, *index);
                push_u32(&mut message, *begin);
                extend(&mut message, block);
            },
            MessageType::Cancel { index, begin, length } => {
                push_u32(&mut message, 13);
                message.push(8u8);
                push_u32(&mut message, *index);
                push_u32(&mut message, *begin);
                push_u32(&mut message, *length);
            },
            MessageType::Port(port) => {
                push_u32(&mut message, 3);
                message.push(9u8);
                message.push((*port >> 8) as u8);
                message.push(*port as u8);
            },
            MessageType::KeepAlive => {
                push_u32(&mut message, 0);
            },
        }
        assert(message@ =~= encode(self@));
        message
    }

    /// Reads one frame: its 4-byte length and that many bytes after it.
    pub fn from_bytes(bytes: &[u8]) -> (r: Result<MessageType, PeerError>)
        ensures
            match decode(bytes@) {
                Some(m) => r matches Ok(msg) && msg@ == m,
                None => r == Err::<MessageType, PeerError>(PeerError::MalformedFrame),
            },
    {
        if bytes.len() < 4 {
            return Err(PeerError::MalformedFrame);
        }
        let len = read_u32(bytes, 0);
        if len > MAX_MESSAGE_LENGTH || bytes.len() - 4 < len as usize {
            return Err(PeerError::MalformedFrame);
        }
        if len == 0 {
            return Ok(MessageType::KeepAlive);
        }
        let id = bytes[4];
        let p = slice_subrange(bytes, 5, 4 + len as usize);
        let n = p.len();
        assert(p@ == bytes@.subrange(5, 4 + len));
        proof {
            if n >= 4 {
                lemma_u32_at_shift(p@.subrange(0, 4), p@, 0);
            }
        }
        if id == 0 {
            Ok(MessageType::Choke)
        } else if id == 1 {
            Ok(MessageType::Unchoke)
        } else if id == 2 {
            Ok(MessageType::Interested)
        } else if id == 3 {
            Ok(MessageType::NotInterested)
        } else if id == 4 && n >= 4 {
            Ok(MessageType::Have(read_u32(p, 0)))
        } else if id == 5 {
            Ok(MessageType::Bitfield(slice_to_vec(p)))
        } else if id == 6 && n >= 12 {
            Ok(MessageType::Request { index: read_u32(p, 0), begin: read_u32(p, 4), length: read_u32(p, 8) })
        } else if id == 7 && n >= 8 {
            let block = slice_to_vec(slice_subrange(p, 8, n));
            Ok(MessageType::Piece { index: read_u32(p, 0), begin: read_u32(p, 4), block })
        } else if id == 8 && n >= 12 {
            Ok(MessageType::Cancel { index: read_u32(p, 0), begin: read_u32(p, 4), length: read_u32(p, 8) })
        } else if id == 9 && n >= 2 {
            Ok(MessageType::Port(((p[0] as u16) << 8) | (p[1] as u16)))
        } else {
            Err(PeerError::MalformedFrame)
        }
    }
}

/// The body length that a frame's 4-byte prefix announces, if the decoder
/// takes a body that long.
pub fn frame_body_length(prefix: &[u8]) -> (r: Option<u32>)
    requires
        prefix@.len() == 4,
    ensures
        u32_at(prefix@, 0) <= MAX_MESSAGE_LENGTH ==> r == Some(u32_at(prefix@, 0)),
        u32_at(prefix@, 0) > MAX_MESSAGE_LENGTH ==> r is None,
{
    let len = read_u32(prefix, 0);
    if len <= MAX_MESSAGE_LENGTH {
        Some(len)
    } else {
        None
    }
}

} // verus!
