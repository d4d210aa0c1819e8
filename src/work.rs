//! A piece in flight on one peer session, split into blocks of at most
//! `BLOCK_SIZE` bytes.
use vstd::prelude::*;

use crate::message::{MessageModel, MessageType};
use crate::pieces::{PieceError, PieceRequest, PieceResponse};

verus! {

pub const BLOCK_SIZE: usize = 16384;

/// Most blocks that one session has requested and not yet received.
pub const MAX_IN_FLIGHT: usize = 5;

#[derive(PartialEq, Eq, Clone, Copy, Debug, Structural)]
pub enum BlockStatus {
    Full,
    Empty,
    InProgress,
}

pub struct BlockInfo {
    pub offset: u32,
    pub length: u32,
    pub status: BlockStatus,
    pub data: Vec<u8>,
}

pub struct PieceWork {
    pub index: u32,
    pub length: usize,
    pub block_size: usize,
    pub blocks: Vec<BlockInfo>,
}

/// A block that arrived in a Piece message.
pub struct BlockResponse {
    pub index: u32,
    pub begin: u32,
    pub block: Vec<u8>,
}

/// Block `i` of a piece of `length` bytes starts at `i * BLOCK_SIZE` and runs
/// to the next block or to the end of the piece.
pub open spec fn block_laid_out(b: BlockInfo, i: int, length: int) -> bool {
    &&& b.offset == i * BLOCK_SIZE
    &&& b.length == if length - i * BLOCK_SIZE < BLOCK_SIZE {
        length - i * BLOCK_SIZE
    } else {
        BLOCK_SIZE as int
    }
}

/// The number of blocks in `s[0..n]` whose status is `st`.
pub open spec fn count_status(s: Seq<BlockInfo>, st: BlockStatus, n: int) -> nat
    decreases n,
{
    if n <= 0 {
        0
    } else {
        count_status(s, st, n - 1) + if s[n - 1].status == st {
            1nat
        } else {
            0nat
        }
    }
}

pub open spec fn in_flight(s: Seq<BlockInfo>) -> nat {
    count_status(s, BlockStatus::InProgress, s.len() as int)
}

/// The sum of the block lengths in `s[0..n]`.
pub open spec fn total_length(s: Seq<BlockInfo>, n: int) -> int
    decreases n,
{
    if n <= 0 {
        0
    } else {
        total_length(s, n - 1) + s[n - 1].length
    }
}

/// The bytes of `s[0..n]`'s blocks, one after the other.
pub open spec fn assembled(s: Seq<BlockInfo>, n: int) -> Seq<u8>
    decreases n,
{
    if n <= 0 {
        Seq::empty()
    } else {
        assembled(s, n - 1) + s[n - 1].data@
    }
}

impl PieceWork {
    /// The blocks cover the piece in order, without gaps, and no more than
    /// `MAX_IN_FLIGHT` of them wait for data.
    pub open spec fn wf(&self) -> bool {
        &&& self.length <= u32::MAX
        &&& self.block_size == BLOCK_SIZE
        &&& forall|i: int|
            0 <= i < self.blocks@.len() ==> #[trigger] block_laid_out(
                self.blocks@[i],
                i,
                self.length as int,
            )
        &&& self.blocks@.len() * BLOCK_SIZE >= self.length
        &&& self.blocks@.len() > 0 ==> (self.blocks@.len() - 1) * BLOCK_SIZE < self.length
        &&& in_flight(self.blocks@) <= MAX_IN_FLIGHT
    }

    /// Some block of this piece at offset `begin` waits for its data.
    pub open spec fn awaits(&self, begin: u32) -> bool {
        exists|j: int|
            0 <= j < self.blocks@.len() && #[trigger] self.blocks@[j].offset == begin
                && self.blocks@[j].status == BlockStatus::InProgress
    }

    pub open spec fn complete_spec(&self) -> bool {
        forall|i: int| 0 <= i < self.blocks@.len() ==> #[trigger] self.blocks@[i].status == BlockStatus::Full
    }

    /// Splits a requested piece into blocks, all of them still to be asked for
    /// and holding no data.
    pub fn from_request(request: &PieceRequest) -> (r: PieceWork)
        requires
            request.length_bytes <= u32::MAX,
        ensures
            r.wf(),
            r.index == request.piece_index,
            r.length == request.length_bytes,
            forall|i: int| 0 <= i < r.blocks@.len() ==> #[trigger] r.blocks@[i].status == BlockStatus::Empty,
            forall|i: int| 0 <= i < r.blocks@.len() ==> (#[trigger] r.blocks@[i]).data@.len() == 0,
    {
        let length = request.length_bytes;
        let mut blocks: Vec<BlockInfo> = Vec::new();
        let mut offset: usize = 0;
        while offset < length
            invariant
                length <= u32::MAX,
                offset <= length,
                offset == if blocks@.len() * BLOCK_SIZE <= length {
                    blocks@.len() * BLOCK_SIZE
                } else {
                    length as int
                },
                blocks@.len() > 0 ==> (blocks@.len() - 1) * BLOCK_SIZE < length,
                forall|i: int| 0 <= i < blocks@.len() ==> #[trigger] block_laid_out(blocks@[i], i, length as int),
                forall|i: int| 0 <= i < blocks@.len() ==> #[trigger] blocks@[i].status == BlockStatus::Empty,
                forall|i: int| 0 <= i < blocks@.len() ==> (#[trigger] blocks@[i]).data@.len() == 0,
            decreases length - offset,
        {
            let remaining = length - offset;
            let block_len = if remaining < BLOCK_SIZE {
                remaining
            } else {
                BLOCK_SIZE
            };
            let block = BlockInfo {
                offset: offset as u32,
                length: block_len as u32,
                status: BlockStatus::Empty,
                data: Vec::new(),
            };
            blocks.push(block);
            offset += block_len;
        }
        proof {
            lemma_count_all_empty(blocks@, blocks@.len() as int);
        }
        PieceWork { index: request.piece_index, length, block_size: BLOCK_SIZE, blocks }
    }

    /// Whether every block holds its data.
    pub fn is_complete(&self) -> (r: bool)
        ensures
            r == self.complete_spec(),
    {
        let mut i: usize = 0;
        while i < self.blocks.len()
            invariant
                i <= self.blocks@.len(),
                forall|j: int| 0 <= j < i ==> #[trigger] self.blocks@[j].status == BlockStatus::Full,
            decreases self.blocks@.len() - i,
        {
            if self.blocks[i].status != BlockStatus::Full {
                return false;
            }
            i += 1;
        }
        true
    }

    /// The assembled bytes of the piece, or `InvalidData` where they do not
    /// add up to the piece's length.
    pub fn to_piece_response(self) -> (r: PieceResponse)
        ensures
            r.piece_index == self.index,
            assembled(self.blocks@, self.blocks@.len() as int).len() == self.length ==> (r.result
                matches Ok(bytes) && bytes@ == assembled(self.blocks@, self.blocks@.len() as int)),
            assembled(self.blocks@, self.blocks@.len() as int).len() != self.length ==> (r.result
                matches Err(PieceError::InvalidData(_))),
    {
        let mut bytes: Vec<u8> = Vec::new();
        let mut i: usize = 0;
        while i < self.blocks.len()
            invariant
                i <= self.blocks@.len(),
                bytes@ == assembled(self.blocks@, i as int),
            decreases self.blocks@.len() - i,
        {
            let data = &self.blocks[i].data;
            let mut j: usize = 0;
            while j < data.len()
                invariant
                    i < self.blocks@.len(),
                    data@ == self.blocks@[i as int].data@,
                    j <= data@.len(),
                    bytes@ == assembled(self.blocks@, i as int) + data@.subrange(0, j as int),
                decreases data@.len() - j,
            {
                bytes.push(data[j]);
                j += 1;
                assert(bytes@ =~= assembled(self.blocks@, i as int) + data@.subrange(0, j as int));
            }
            assert(data@.subrange(0, j as int) =~= data@);
            i += 1;
        }
        if bytes.len() != self.length {
            PieceResponse {
                piece_index: self.index,
                result: Err(PieceError::InvalidData(String::from_str("piece data is malformed"))),
            }
        } else {
            PieceResponse { piece_index: self.index, result: Ok(bytes) }
        }
    }

    /// Stores a block that the peer sent, if this piece waits for a block at
    /// that offset; otherwise nothing changes.
    pub fn receive_block(&mut self, response: BlockResponse) -> (r: bool)
        requires
            old(self).wf(),
        ensures
            final(self).wf(),
            final(self).index == old(self).index,
            final(self).length == old(self).length,
            r == old(self).awaits(response.begin),
            r ==> exists|j: int|
                0 <= j < old(self).blocks@.len() && #[trigger] old(self).blocks@[j].offset
                    == response.begin && old(self).blocks@[j].status == BlockStatus::InProgress
                    && final(self).blocks@ == old(self).blocks@.update(
                    j,
                    filled(old(self).blocks@[j], response.block),
                ),
            !r ==> final(self).blocks@ == old(self).blocks@,
    {
        let mut j: usize = 0;
        while j < self.blocks.len()
            invariant
                *self == *old(self),
                old(self).wf(),
                j <= self.blocks@.len(),
                forall|k: int|
                    0 <= k < j ==> !(#[trigger] self.blocks@[k].offset == response.begin
                        && self.blocks@[k].status == BlockStatus::InProgress),
            decreases self.blocks@.len() - j,
        {
            if self.blocks[j].offset == response.begin && self.blocks[j].status
                == BlockStatus::InProgress {
                let ghost before = self.blocks@;
                assert(before[j as int].offset == response.begin && before[j as int].status == BlockStatus::InProgress);
                let block = &mut self.blocks[j];
                block.status = BlockStatus::Full;
                block.data = response.block;
                proof {
                    assert(self.blocks@ =~= before.update(j as int, filled(before[j as int], response.block)));
                    lemma_count_update(before, j as int, filled(before[j as int], response.block), BlockStatus::InProgress, before.len() as int);
                    assert forall|i: int| 0 <= i < self.blocks@.len() implies #[trigger] block_laid_out(self.blocks@[i], i, self.length as int) by {
                        assert(block_laid_out(before[i], i, self.length as int));
                    }
                }
                return true;
            }
            j += 1;
        }
        false
    }

    /// Marks the first Empty blocks as InProgress, as many as keep the number
    /// in flight within `MAX_IN_FLIGHT`, and gives the Request message for each,
    /// in block order.
    pub fn request_blocks(&mut self) -> (r: Vec<MessageType>)
        requires
            old(self).wf(),
        ensures
            final(self).wf(),
            final(self).index == old(self).index,
            final(self).length == old(self).length,
            final(self).blocks@.len() == old(self).blocks@.len(),
            forall|i: int|
                0 <= i < old(self).blocks@.len() ==> #[trigger] final(self).blocks@[i] == if chosen(
                    old(self).blocks@,
                    i,
                ) {
                    requested(old(self).blocks@[i])
                } else {
                    old(self).blocks@[i]
                },
            r@.len() == min_nat(
                count_status(old(self).blocks@, BlockStatus::Empty, old(self).blocks@.len() as int),
                free_slots(old(self).blocks@),
            ),
            forall|i: int|
                0 <= i < old(self).blocks@.len() && #[trigger] chosen(old(self).blocks@, i)
                    ==> r@[count_status(old(self).blocks@, BlockStatus::Empty, i) as int]@
                    == request_for(old(self).index, old(self).blocks@[i]),
            forall|k: int| 0 <= k < r@.len() ==> is_request_of(#[trigger] r@[k]@, old(self).index),
    {
        let ghost start = self.blocks@;
        let mut busy: usize = 0;
        let mut k: usize = 0;
        while k < self.blocks.len()
            invariant
                *self == *old(self),
                self.blocks@ == start,
                k <= start.len(),
                busy == count_status(start, BlockStatus::InProgress, k as int),
                count_status(start, BlockStatus::InProgress, start.len() as int) <= MAX_IN_FLIGHT,
            decreases start.len() - k,
        {
            proof {
                lemma_count_monotone(start, BlockStatus::InProgress, k as int + 1, start.len() as int);
            }
            if self.blocks[k].status == BlockStatus::InProgress {
                busy += 1;
            }
            k += 1;
        }
        let allowed: usize = MAX_IN_FLIGHT - busy;
        let mut out: Vec<MessageType> = Vec::new();
        let mut i: usize = 0;
        while i < self.blocks.len()
            invariant
                self.wf_layout(),
                self.index == old(self).index,
                self.length == old(self).length,
                self.block_size == old(self).block_size,
                start == old(self).blocks@,
                old(self).wf(),
                allowed == free_slots(start),
                self.blocks@.len() == start.len(),
                i <= start.len(),
                out@.len() == min_nat(count_status(start, BlockStatus::Empty, i as int), allowed as nat),
                forall|m: int|
                    0 <= m < start.len() ==> #[trigger] self.blocks@[m] == if m < i && chosen(start, m) {
                        requested(start[m])
                    } else {
                        start[m]
                    },
                count_status(self.blocks@, BlockStatus::InProgress, start.len() as int) == in_flight(start) + out@.len(),
                forall|m: int|
                    0 <= m < i && #[trigger] chosen(start, m) ==> out@[count_status(start, BlockStatus::Empty, m) as int]@
                        == request_for(self.index, start[m]),
                forall|k: int| 0 <= k < out@.len() ==> is_request_of(#[trigger] out@[k]@, self.index),
            decreases start.len() - i,
        {
            proof {
                assert forall|m: int| 0 <= m < i && #[trigger] chosen(start, m) implies count_status(start, BlockStatus::Empty, m) < out@.len() by {
                    lemma_count_monotone(start, BlockStatus::Empty, m + 1, i as int);
                }
            }
            if self.blocks[i].status == BlockStatus::Empty && out.len() < allowed {
                let ghost before = self.blocks@;
                let msg = MessageType::Request {
                    index: self.index,
                    begin: self.blocks[i].offset,
                    length: self.blocks[i].length,
                };
                self.blocks[i].status = BlockStatus::InProgress;
                proof {
                    assert(self.blocks@ =~= before.update(i as int, requested(before[i as int])));
                    lemma_count_update(before, i as int, requested(before[i as int]), BlockStatus::InProgress, before.len() as int);
                    assert forall|m: int| 0 <= m < self.blocks@.len() implies #[trigger] block_laid_out(self.blocks@[m], m, self.length as int) by {
                        assert(block_laid_out(before[m], m, self.length as int));
                    }
                }
                out.push(msg);
            }
            assert(count_status(start, BlockStatus::Empty, i as int + 1) == count_status(start, BlockStatus::Empty, i as int) + if start[i as int].status == BlockStatus::Empty {
                1nat
            } else {
                0nat
            });
            i += 1;
        }
        proof {
            assert forall|m: int| 0 <= m < self.blocks@.len() implies #[trigger] block_laid_out(self.blocks@[m], m, self.length as int) by {
                assert(block_laid_out(start[m], m, self.length as int));
            }
        }
        out
    }

    /// The block layout part of `wf`.
    pub open spec fn wf_layout(&self) -> bool {
        &&& self.length <= u32::MAX
        &&& self.block_size == BLOCK_SIZE
        &&& forall|i: int|
            0 <= i < self.blocks@.len() ==> #[trigger] block_laid_out(
                self.blocks@[i],
                i,
                self.length as int,
            )
        &&& self.blocks@.len() * BLOCK_SIZE >= self.length
        &&& self.blocks@.len() > 0 ==> (self.blocks@.len() - 1) * BLOCK_SIZE < self.length
    }
}

/// `new` is `old` with the chosen blocks marked InProgress, and `r` holds
/// the Request message of each chosen block, in block order.
pub open spec fn requested_next(old: Seq<BlockInfo>, new: Seq<BlockInfo>, index: u32, r: Seq<MessageType>) -> bool {
    &&& new.len() == old.len()
    &&& forall|i: int|
        0 <= i < old.len() ==> #[trigger] new[i] == if chosen(old, i) {
            requested(old[i])
        } else {
            old[i]
        }
    &&& r.len() == min_nat(count_status(old, BlockStatus::Empty, old.len() as int), free_slots(old))
    &&& forall|i: int|
        0 <= i < old.len() && #[trigger] chosen(old, i) ==> r[count_status(old, BlockStatus::Empty, i) as int]@
            == request_for(index, old[i])
}

pub open spec fn min_nat(a: nat, b: nat) -> nat {
    if a < b {
        a
    } else {
        b
    }
}

/// How many more blocks may be requested before `MAX_IN_FLIGHT` is reached.
pub open spec fn free_slots(s: Seq<BlockInfo>) -> nat {
    (MAX_IN_FLIGHT - in_flight(s)) as nat
}

/// Block `i` is among the first Empty blocks that fit in the free slots.
pub open spec fn chosen(s: Seq<BlockInfo>, i: int) -> bool {
    s[i].status == BlockStatus::Empty && count_status(s, BlockStatus::Empty, i) < free_slots(s)
}

/// The Request message for block `b` of piece `index`.
pub open spec fn request_for(index: u32, b: BlockInfo) -> MessageModel {
    MessageModel::Request { index, begin: b.offset, length: b.length }
}

/// `m` asks for a block of piece `index`.
pub open spec fn is_request_of(m: MessageModel, index: u32) -> bool {
    m matches MessageModel::Request { index: i, .. } && i == index
}

pub open spec fn requested(b: BlockInfo) -> BlockInfo {
    BlockInfo { offset: b.offset, length: b.length, status: BlockStatus::InProgress, data: b.data }
}

pub open spec fn filled(b: BlockInfo, data: Vec<u8>) -> BlockInfo {
    BlockInfo { offset: b.offset, length: b.length, status: BlockStatus::Full, data }
}

proof fn lemma_count_monotone(s: Seq<BlockInfo>, st: BlockStatus, a: int, b: int)
    requires
        0 <= a <= b,
    ensures
        count_status(s, st, a) <= count_status(s, st, b),
    decreases b - a,
{
    if a < b {
        lemma_count_monotone(s, st, a, b - 1);
    }
}

proof fn lemma_count_update(s: Seq<BlockInfo>, j: int, b: BlockInfo, st: BlockStatus, n: int)
    requires
        0 <= j < s.len(),
        0 <= n <= s.len(),
    ensures
        count_status(s.update(j, b), st, n) + (if j < n && s[j].status == st {
            1int
        } else {
            0int
        }) == count_status(s, st, n) + (if j < n && b.status == st {
            1int
        } else {
            0int
        }),
    decreases n,
{
    if n > 0 {
        lemma_count_update(s, j, b, st, n - 1);
    }
}

/// The blocks of a piece cover it exactly, and none is longer than
/// `BLOCK_SIZE`.
pub proof fn lemma_blocks_cover_piece(w: PieceWork)
    requires
        w.wf(),
    ensures
        total_length(w.blocks@, w.blocks@.len() as int) == w.length,
        forall|i: int| 0 <= i < w.blocks@.len() ==> #[trigger] w.blocks@[i].length <= BLOCK_SIZE,
{
    let n = w.blocks@.len() as int;
    lemma_total_prefix(w, n);
    assert forall|i: int| 0 <= i < n implies #[trigger] w.blocks@[i].length <= BLOCK_SIZE by {
        assert(block_laid_out(w.blocks@[i], i, w.length as int));
    }
}

proof fn lemma_total_prefix(w: PieceWork, k: int)
    requires
        w.wf(),
        0 <= k <= w.blocks@.len(),
    ensures
        total_length(w.blocks@, k) == if k * BLOCK_SIZE <= w.length {
            k * BLOCK_SIZE
        } else {
            w.length as int
        },
    decreases k,
{
    if k > 0 {
        lemma_total_prefix(w, k - 1);
        assert(block_laid_out(w.blocks@[k - 1], k - 1, w.length as int));
    }
}

/// However it got there, a piece in flight never has more than
/// `MAX_IN_FLIGHT` blocks requested and not yet received.
pub proof fn lemma_in_flight_bounded(w: PieceWork)
    requires
        w.wf(),
    ensures
        count_status(w.blocks@, BlockStatus::InProgress, w.blocks@.len() as int) <= MAX_IN_FLIGHT,
{
}

proof fn lemma_count_all_empty(s: Seq<BlockInfo>, n: int)
    requires
        0 <= n <= s.len(),
        forall|i: int| 0 <= i < s.len() ==> #[trigger] s[i].status == BlockStatus::Empty,
    ensures
        count_status(s, BlockStatus::InProgress, n) == 0,
    decreases n,
{
    if n > 0 {
        lemma_count_all_empty(s, n - 1);
    }
}

} // verus!
