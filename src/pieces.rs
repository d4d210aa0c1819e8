//! What travels between the piece manager and the peer sessions.
use vstd::prelude::*;
use std::collections::VecDeque;

use crate::digest::{sha1_digest, sha1_of};
use crate::metainfo::{FilesDict, InfoEnum, DIGEST_LENGTH};

verus! {

/// A piece to download: its index and its length in bytes.
#[derive(Clone, Copy, Debug, PartialEq, Eq)]
pub struct PieceRequest {
    pub piece_index: u32,
    pub length_bytes: usize,
}

/// Why a peer session gave a piece back.
#[derive(Debug, PartialEq, Eq)]
pub enum PieceError {
    Timeout,
    InvalidData(String),
    PeerChoked,
    ConnectionLost,
    PieceUnavailable,
}

/// A piece that a peer session hands back: its bytes or why it failed.
#[derive(Debug, PartialEq, Eq)]
pub struct PieceResponse {
    pub piece_index: u32,
    pub result: Result<Vec<u8>, PieceError>,
}

/// Where a piece lies in the torrent's data and the digest it must have.
#[derive(Clone, Copy, Debug, PartialEq, Eq)]
pub struct PieceMetadata {
    pub index: u32,
    pub hash: [u8; 20],
    pub length: usize,
    pub offset: usize,
}

/// Why the piece table of a descriptor cannot be laid out.
#[derive(Clone, Copy, Debug, PartialEq, Eq)]
pub enum LayoutError {
    /// A piece length of zero.
    ZeroPieceLength,
    /// A digest table whose length is not a multiple of 20.
    DigestTableLength,
    /// File lengths whose sum does not fit in memory sizes.
    TooLarge,
    /// As many digests as pieces the length calls for, neither more nor fewer.
    PieceCountMismatch,
}

/// What the piece manager does with a response.
#[derive(Debug, PartialEq, Eq)]
pub enum PieceOutcome {
    /// Hand the verified bytes of piece `index` to storage.
    Store { index: u32, bytes: Vec<u8> },
    /// Put the piece back at the tail of the work queue; `drop_peer` says
    /// whether the peer that sent the response is to be dropped.
    Requeue { request: PieceRequest, drop_peer: bool },
    /// A response for a piece this torrent does not have.
    Ignored,
}

/// The pieces of a torrent whose data is `total` bytes long, cut every
/// `piece_length` bytes: each starts where the one before ends, the first at
/// zero, each is `piece_length` long but the last, which ends at `total`.
pub open spec fn table_laid_out(md: Seq<PieceMetadata>, total: int, piece_length: int) -> bool {
    &&& forall|i: int|
        0 <= i < md.len() ==> {
            &&& (#[trigger] md[i]).index == i
            &&& md[i].offset < total
            &&& md[i].length == if total - md[i].offset < piece_length {
                total - md[i].offset
            } else {
                piece_length
            }
        }
    &&& md.len() > 0 ==> md[0].offset == 0
    &&& forall|i: int|
        0 <= i < md.len() - 1 ==> #[trigger] md[i + 1].offset == md[i].offset + md[i].length
    &&& md.len() == 0 ==> total == 0
    &&& md.len() > 0 ==> md[md.len() - 1].offset + md[md.len() - 1].length == total
}

/// `n` pieces of `piece_length` bytes, the last one possibly shorter, make up
/// `total` bytes.
pub open spec fn piece_count_fits(total: int, piece_length: int, n: int) -> bool {
    n * piece_length >= total && (n == 0 || (n - 1) * piece_length < total)
}

/// Each piece carries its 20 bytes of the digest table.
pub open spec fn digests_match(md: Seq<PieceMetadata>, table: Seq<u8>) -> bool {
    &&& table.len() == 20 * md.len()
    &&& forall|i: int|
        0 <= i < md.len() ==> (#[trigger] md[i]).hash@ == table.subrange(20 * i, 20 * i + 20)
}

/// The sum of the file lengths of a descriptor.
pub open spec fn files_total(info: InfoEnum) -> int {
    match info {
        InfoEnum::SingleFile(s) => s.length as int,
        InfoEnum::MultiFile(m) => lengths_sum(file_lengths(m.files@), m.files@.len() as int),
    }
}

pub open spec fn file_lengths(files: Seq<FilesDict>) -> Seq<u64> {
    files.map_values(|f: FilesDict| f.length)
}

pub open spec fn lengths_sum(s: Seq<u64>, n: int) -> int
    decreases n,
{
    if n <= 0 {
        0
    } else {
        lengths_sum(s, n - 1) + s[n - 1]
    }
}

fn total_length(info: &InfoEnum) -> (r: Option<usize>)
    ensures
        r matches Some(t) ==> t == files_total(*info),
        r is None ==> files_total(*info) > usize::MAX,
{
    match info {
        InfoEnum::SingleFile(s) => {
            if s.length as u128 > usize::MAX as u128 {
                None
            } else {
                Some(s.length as usize)
            }
        },
        InfoEnum::MultiFile(m) => {
            let ghost lens = file_lengths(m.files@);
            let mut sum: usize = 0;
            let mut i: usize = 0;
            while i < m.files.len()
                invariant
                    lens == file_lengths(m.files@),
                    files_total(*info) == lengths_sum(lens, m.files@.len() as int),
                    i <= m.files@.len(),
                    sum == lengths_sum(lens, i as int),
                decreases m.files@.len() - i,
            {
                let len = m.files[i].length;
                assert(lengths_sum(lens, i as int + 1) == lengths_sum(lens, i as int) + lens[i as int]);
                assert(lens[i as int] == len);
                if len as u128 > (usize::MAX - sum) as u128 {
                    proof {
                        assert(lens.len() == m.files@.len());
                        lemma_lengths_sum_monotone(lens, i as int + 1, m.files@.len() as int);
                    }
                    return None;
                }
                sum = sum + len as usize;
                i += 1;
            }
            Some(sum)
        },
    }
}

proof fn lemma_lengths_sum_monotone(s: Seq<u64>, a: int, b: int)
    requires
        0 <= a <= b <= s.len(),
    ensures
        lengths_sum(s, a) <= lengths_sum(s, b),
    decreases b - a,
{
    if a < b {
        lemma_lengths_sum_monotone(s, a, b - 1);
    }
}

/// `r` puts piece `index`, `length` bytes long, back in the queue.
pub open spec fn is_requeue(r: PieceOutcome, index: u32, length: usize, drop_peer: bool) -> bool {
    r matches PieceOutcome::Requeue { request, drop_peer: d } && request.piece_index == index
        && request.length_bytes == length && d == drop_peer
}

/// Errors after which the peer is dropped.
pub open spec fn drops_peer(e: PieceError) -> bool {
    match e {
        PieceError::Timeout => true,
        PieceError::PeerChoked => true,
        PieceError::ConnectionLost => true,
        _ => false,
    }
}

/// Keeps which pieces are verified and decides what becomes of each
/// response.
pub struct PieceManager {
    pub piece_metadata: Vec<PieceMetadata>,
    pub completed: Vec<bool>,
}

impl PieceManager {
    pub open spec fn wf(&self) -> bool {
        &&& self.completed@.len() == self.piece_metadata@.len()
        &&& self.piece_metadata@.len() <= u32::MAX
        &&& forall|i: int| 0 <= i < self.piece_metadata@.len() ==> (#[trigger] self.piece_metadata@[i]).index == i
    }

    /// Lays out the pieces of a descriptor, with their lengths and digests;
    /// none is verified yet.
    pub fn from_info(info: &InfoEnum) -> (r: Result<PieceManager, LayoutError>)
        ensures
            info.piece_length_spec() == 0 ==> r == Err::<PieceManager, LayoutError>(LayoutError::ZeroPieceLength),
            0 < info.piece_length_spec() <= usize::MAX && info.pieces_spec().len() % 20 != 0 ==> r
                == Err::<PieceManager, LayoutError>(LayoutError::DigestTableLength),
            r == Err::<PieceManager, LayoutError>(LayoutError::TooLarge) ==> info.piece_length_spec()
                > usize::MAX || files_total(*info) > usize::MAX,
            r == Err::<PieceManager, LayoutError>(LayoutError::PieceCountMismatch) ==> info.pieces_spec().len() / 20 > u32::MAX
                || !piece_count_fits(files_total(*info), info.piece_length_spec() as int, (info.pieces_spec().len() / 20) as int),
            (0 < info.piece_length_spec() <= usize::MAX && info.pieces_spec().len() % 20 == 0
                && files_total(*info) <= usize::MAX && info.pieces_spec().len() / 20 <= u32::MAX
                && piece_count_fits(files_total(*info), info.piece_length_spec() as int, (info.pieces_spec().len() / 20) as int)) ==> r is Ok,
            r matches Ok(m) ==> {
                &&& m.wf()
                &&& table_laid_out(m.piece_metadata@, files_total(*info), info.piece_length_spec() as int)
                &&& digests_match(m.piece_metadata@, info.pieces_spec())
                &&& forall|i: int| 0 <= i < m.completed@.len() ==> !(#[trigger] m.completed@[i])
            },
    {
        let pl64 = info.piece_length();
        if pl64 == 0 {
            return Err(LayoutError::ZeroPieceLength);
        }
        if pl64 as u128 > usize::MAX as u128 {
            return Err(LayoutError::TooLarge);
        }
        let pl = pl64 as usize;
        let table = info.pieces();
        if table.len() % DIGEST_LENGTH != 0 {
            return Err(LayoutError::DigestTableLength);
        }
        let total = match total_length(info) {
            Some(t) => t,
            None => {
                return Err(LayoutError::TooLarge);
            },
        };
        let tlen = table.len();
        let n = tlen / DIGEST_LENGTH;
        if n as u64 > u32::MAX as u64 {
            return Err(LayoutError::PieceCountMismatch);
        }
        let mut md: Vec<PieceMetadata> = Vec::new();
        let mut completed: Vec<bool> = Vec::new();
        let mut offset: usize = 0;
        let mut i: usize = 0;
        while i < n
            invariant
                tlen == table@.len(),
                n == table@.len() / 20,
                table@.len() % 20 == 0,
                n <= u32::MAX,
                table@ == info.pieces_spec(),
                pl == info.piece_length_spec(),
                pl > 0,
                total == files_total(*info),
                i <= n,
                md@.len() == i,
                completed@.len() == i,
                offset <= total,
                forall|k: int| 0 <= k < i ==> !(#[trigger] completed@[k]),
                forall|k: int|
                    0 <= k < i ==> {
                        &&& (#[trigger] md@[k]).index == k
                        &&& md@[k].offset < total
                        &&& md@[k].length == if total - md@[k].offset < pl {
                            total - md@[k].offset
                        } else {
                            pl as int
                        }
                        &&& md@[k].hash@ == table@.subrange(20 * k, 20 * k + 20)
                    },
                i > 0 ==> md@[0].offset == 0,
                i == 0 ==> offset == 0,
                forall|k: int| 0 <= k < i - 1 ==> #[trigger] md@[k + 1].offset == md@[k].offset + md@[k].length,
                i > 0 ==> md@[i - 1].offset + md@[i - 1].length == offset,
                offset == if i * pl <= total {
                    i * pl
                } else {
                    total as int
                },
                i > 0 ==> (i - 1) * pl < total,
            decreases n - i,
        {
            if offset >= total {
                proof {
                    assert((n - 1) * pl >= i * pl) by (nonlinear_arith)
                        requires
                            i <= n - 1,
                            pl > 0,
                    ;
                }
                return Err(LayoutError::PieceCountMismatch);
            }
            assert((i + 1) * pl == i * pl + pl) by (nonlinear_arith);
            let remaining = total - offset;
            let length = if remaining < pl {
                remaining
            } else {
                pl
            };
            assert(20 * i + 20 <= table@.len()) by (nonlinear_arith)
                requires
                    i < n,
                    n == table@.len() / 20,
                    table@.len() % 20 == 0,
            ;
            let at = 20 * i;
            let mut hash = [0u8; 20];
            let mut j: usize = 0;
            while j < 20
                invariant
                    j <= 20,
                    tlen == table@.len(),
                    at + 20 <= table@.len(),
                    forall|k: int| 0 <= k < j ==> hash@[k] == table@[at + k],
                decreases 20 - j,
            {
                hash.set(j, table[at + j]);
                j += 1;
            }
            assert(hash@ =~= table@.subrange(20 * i, 20 * i + 20));
            md.push(PieceMetadata { index: i as u32, hash, length, offset });
            completed.push(false);
            offset = offset + length;
            i += 1;
        }
        if offset != total {
            return Err(LayoutError::PieceCountMismatch);
        }
        assert(piece_count_fits(total as int, pl as int, n as int));
        proof {
            assert(table@.len() == 20 * md@.len()) by (nonlinear_arith)
                requires
                    md@.len() == table@.len() / 20,
                    table@.len() % 20 == 0,
            ;
        }
        Ok(PieceManager { piece_metadata: md, completed })
    }

    /// The work queue at startup: every piece, in order, with its length.
    pub fn initial_requests(&self) -> (r: VecDeque<PieceRequest>)
        requires
            self.wf(),
        ensures
            r@.len() == self.piece_metadata@.len(),
            forall|i: int|
                0 <= i < r@.len() ==> (#[trigger] r@[i]).piece_index == i && r@[i].length_bytes
                    == self.piece_metadata@[i].length,
    {
        let mut q: VecDeque<PieceRequest> = VecDeque::new();
        let mut i: usize = 0;
        while i < self.piece_metadata.len()
            invariant
                self.wf(),
                i <= self.piece_metadata@.len(),
                q@.len() == i,
                forall|k: int|
                    0 <= k < i ==> (#[trigger] q@[k]).piece_index == k && q@[k].length_bytes
                        == self.piece_metadata@[k].length,
            decreases self.piece_metadata@.len() - i,
        {
            let md = &self.piece_metadata[i];
            q.push_back(PieceRequest { piece_index: md.index, length_bytes: md.length });
            i += 1;
        }
        q
    }

    /// Piece `index` again, as the work queue holds it.
    fn request_for(&self, index: u32) -> (r: PieceRequest)
        requires
            self.wf(),
            index < self.piece_metadata@.len(),
        ensures
            r.piece_index == index,
            r.length_bytes == self.piece_metadata@[index as int].length,
    {
        PieceRequest { piece_index: index, length_bytes: self.piece_metadata[index as usize].length }
    }

    /// Decides on the bytes of piece `index` given their digest: stored, and
    /// the piece marked complete, if the digest is the expected one; else the
    /// piece goes back to the queue.
    pub fn accept_piece(&mut self, index: u32, bytes: Vec<u8>, digest: &[u8; 20]) -> (r: PieceOutcome)
        requires
            old(self).wf(),
            index < old(self).piece_metadata@.len(),
        ensures
            final(self).wf(),
            final(self).piece_metadata == old(self).piece_metadata,
            digest@ == old(self).piece_metadata@[index as int].hash@ ==> r == (PieceOutcome::Store { index, bytes })
                && final(self).completed@ == old(self).completed@.update(index as int, true),
            digest@ != old(self).piece_metadata@[index as int].hash@ ==> final(self).completed
                == old(self).completed && is_requeue(r, index, old(self).piece_metadata@[index as int].length, false),
    {
        let expected = &self.piece_metadata[index as usize].hash;
        let mut same = true;
        let mut j: usize = 0;
        while j < 20
            invariant
                j <= 20,
                same <==> forall|k: int| 0 <= k < j ==> digest@[k] == expected@[k],
            decreases 20 - j,
        {
            if digest[j] != expected[j] {
                same = false;
            }
            j += 1;
        }
        if same {
            assert(digest@ =~= expected@);
            self.completed.set(index as usize, true);
            PieceOutcome::Store { index, bytes }
        } else {
            PieceOutcome::Requeue { request: self.request_for(index), drop_peer: false }
        }
    }

    /// Routes a response: verified data goes to storage, everything else back
    /// to the queue; a peer that timed out, choked or dropped the connection
    /// is dropped too.
    pub fn handle_response(&mut self, response: PieceResponse) -> (r: PieceOutcome)
        requires
            old(self).wf(),
        ensures
            final(self).wf(),
            final(self).piece_metadata == old(self).piece_metadata,
            response.piece_index >= old(self).piece_metadata@.len() ==> r == PieceOutcome::Ignored
                && final(self).completed == old(self).completed,
            r matches PieceOutcome::Store { index, bytes } ==> index == response.piece_index
                && response.result == Ok::<Vec<u8>, PieceError>(bytes) && sha1_of(bytes@)
                == old(self).piece_metadata@[index as int].hash@,
            response.piece_index < old(self).piece_metadata@.len() && response.result is Ok && sha1_of(
                response.result->Ok_0@,
            ) == old(self).piece_metadata@[response.piece_index as int].hash@ ==> r == (PieceOutcome::Store {
                index: response.piece_index,
                bytes: response.result->Ok_0,
            }) && final(self).completed@ == old(self).completed@.update(response.piece_index as int, true),
            response.piece_index < old(self).piece_metadata@.len() && response.result is Err ==> is_requeue(
                r,
                response.piece_index,
                old(self).piece_metadata@[response.piece_index as int].length,
                drops_peer(response.result->Err_0),
            ) && final(self).completed == old(self).completed,
            response.piece_index < old(self).piece_metadata@.len() && response.result is Ok && sha1_of(
                response.result->Ok_0@,
            ) != old(self).piece_metadata@[response.piece_index as int].hash@ ==> is_requeue(
                r,
                response.piece_index,
                old(self).piece_metadata@[response.piece_index as int].length,
                false,
            ) && final(self).completed == old(self).completed,
    {
        let index = response.piece_index;
        if index as usize >= self.piece_metadata.len() {
            return PieceOutcome::Ignored;
        }
        match response.result {
            Ok(bytes) => {
                let digest = sha1_digest(bytes.as_slice());
                self.accept_piece(index, bytes, &digest)
            },
            Err(e) => {
                let drop_peer = match e {
                    PieceError::Timeout => true,
                    PieceError::PeerChoked => true,
                    PieceError::ConnectionLost => true,
                    _ => false,
                };
                PieceOutcome::Requeue { request: self.request_for(index), drop_peer }
            },
        }
    }

    /// Whether every piece has been verified.
    pub fn is_done(&self) -> (r: bool)
        ensures
            r == forall|i: int| 0 <= i < self.completed@.len() ==> #[trigger] self.completed@[i],
    {
        let mut i: usize = 0;
        while i < self.completed.len()
            invariant
                i <= self.completed@.len(),
                forall|k: int| 0 <= k < i ==> #[trigger] self.completed@[k],
            decreases self.completed@.len() - i,
        {
            if !self.completed[i] {
                return false;
            }
            i += 1;
        }
        true
    }
}

} // verus!
