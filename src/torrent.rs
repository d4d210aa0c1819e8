//! A loaded torrent: its descriptor and its info hash.
use vstd::prelude::*;

use crate::bencode::{find_info_span, info_bytes, info_span};
use crate::digest::{sha1_digest, sha1_of};
use crate::files::{blocked, find, grown, names, FileEntry, FileKind, NotADirectory};
use crate::metainfo::{FilesDict, InfoEnum, MetaInfo};
use crate::pieces::{digests_match, files_total, piece_count_fits, table_laid_out, LayoutError, PieceManager};
use crate::tracker::{percent_encoded, TrackerSession};

verus! {

pub struct Torrent {
    pub metainfo: MetaInfo,
    pub info_hash: [u8; 20],
}

/// Why a descriptor cannot be loaded.
#[derive(Clone, Copy, Debug, PartialEq, Eq)]
pub enum LoadError {
    /// The bytes are not one bencoded dictionary with an `info` key.
    MissingInfo,
}

/// The path of an earlier file in `files` is a proper prefix of a later
/// one's, so that the later one would go under a file.
pub open spec fn prefix_clash(files: Seq<FilesDict>) -> bool {
    exists|i: int, j: int, k: int|
        0 <= j < i < files.len() && 0 <= k < files[i].path@.len() && #[trigger] names(
            files[j].path@,
        ) == #[trigger] names(files[i].path@).take(k)
}

/// `trees[0]` is an empty directory named `.`, and each `trees[i + 1]` is
/// `trees[i]` with the path of `files[i]` inserted, for the first `n` files.
pub open spec fn inserted_in_order(trees: Seq<FileEntry>, files: Seq<FilesDict>, n: int) -> bool
    decreases n,
{
    if n <= 0 {
        &&& n == 0
        &&& trees.len() == 1
        &&& trees[0].name@ == "."@
        &&& trees[0].kind matches FileKind::Directory { children } && children@.len() == 0
    } else {
        &&& n <= files.len()
        &&& trees.len() == n + 1
        &&& inserted_in_order(trees.drop_last(), files, n - 1)
        &&& !blocked(trees[n - 1], names(files[n - 1].path@))
        &&& grown(trees[n - 1], trees[n], names(files[n - 1].path@))
    }
}

impl Torrent {
    /// Takes a descriptor's bytes and the fields read from them; the info hash
    /// is the SHA-1 of the `info` value's bytes exactly as they stand.
    pub fn load(bytes: &[u8], metainfo: MetaInfo) -> (r: Result<Torrent, LoadError>)
        ensures
            info_span(bytes@) is None ==> r == Err::<Torrent, LoadError>(LoadError::MissingInfo),
            info_span(bytes@) is Some ==> (r matches Ok(t) && t.info_hash@ == sha1_of(
                info_bytes(bytes@),
            ) && t.metainfo == metainfo),
    {
        match find_info_span(bytes) {
            Some((start, end)) => {
                let info = vstd::slice::slice_subrange(bytes, start, end);
                let info_hash = sha1_digest(info);
                Ok(Torrent { metainfo, info_hash })
            },
            None => Err(LoadError::MissingInfo),
        }
    }

    pub fn name(&self) -> (r: &str)
        ensures
            r@ == self.metainfo.info.name_spec(),
    {
        self.metainfo.info.name()
    }

    pub fn info_hash(&self) -> (r: &[u8])
        ensures
            r@ == self.info_hash@,
    {
        self.info_hash.as_slice()
    }

    /// The files under a root named `.`: the one file, or every path of the
    /// list.
    pub fn get_file_tree(&self) -> (r: Result<FileEntry, NotADirectory>)
        ensures
            r matches Ok(t) ==> t.name@ == "."@,
            self.metainfo.info is SingleFile ==> r is Ok,
            (self.metainfo.info matches InfoEnum::MultiFile(m) && !prefix_clash(m.files@)) ==> r is Ok,
            self.metainfo.info matches InfoEnum::SingleFile(s) ==> (r matches Ok(t) && (t.kind matches FileKind::Directory { children } && children@.len() == 1
                && children@[0].name@ == s.name@ && children@[0].kind is File)),
            self.metainfo.info matches InfoEnum::MultiFile(m) ==> (r matches Ok(t) ==> exists|trees: Seq<FileEntry>|
                inserted_in_order(trees, m.files@, m.files@.len() as int) && #[trigger] trees[m.files@.len() as int] == t),
            self.metainfo.info matches InfoEnum::MultiFile(m) ==> (r is Err ==> exists|trees: Seq<FileEntry>, i: int|
                inserted_in_order(trees, m.files@, i) && i < m.files@.len() && #[trigger] blocked(trees[i], names(m.files@[i].path@))),
            r matches Ok(t) ==> match self.metainfo.info {
                InfoEnum::SingleFile(s) => find(t, seq![s.name@]) is Some,
                InfoEnum::MultiFile(m) => forall|i: int|
                    0 <= i < m.files@.len() ==> #[trigger] find(t, names(m.files@[i].path@)) is Some,
            },
    {
        let mut root = FileEntry::new(".");
        match &self.metainfo.info {
            InfoEnum::MultiFile(m) => {
                let mut i: usize = 0;
                let ghost mut trees: Seq<FileEntry> = seq![root];
                while i < m.files.len()
                    invariant
                        inserted_in_order(trees, m.files@, i as int),
                        trees[i as int] == root,
                        self.metainfo.info is MultiFile,
                        self.metainfo.info matches InfoEnum::MultiFile(mm) && mm == *m,
                        i <= m.files@.len(),
                        root.name@ == "."@,
                        forall|k: int| 0 <= k < i ==> #[trigger] find(root, names(m.files@[k].path@)) is Some,
                        forall|q: Seq<Seq<char>>|
                            #[trigger] find(root, q) == Some(true) ==> exists|j: int|
                                0 <= j < i && q == names(#[trigger] m.files@[j].path@),
                    decreases m.files@.len() - i,
                {
                    let ghost before = root;
                    match root.insert_path(m.files[i].path.as_slice()) {
                        Ok(()) => {
                            assert(!blocked(before, names(m.files@[i as int].path@)));
                            assert(grown(before, root, names(m.files@[i as int].path@)));
                        },
                        Err(e) => {
                            assert(inserted_in_order(trees, m.files@, i as int) && blocked(trees[i as int], names(m.files@[i as int].path@)));
                            proof {
                                let p = names(m.files@[i as int].path@);
                                let k = choose|k: int| 0 <= k < p.len() && #[trigger] find(before, p.take(k)) == Some(true);
                                let j = choose|j: int| 0 <= j < i && p.take(k) == names(#[trigger] m.files@[j].path@);
                                assert(names(m.files@[j].path@) == names(m.files@[i as int].path@).take(k));
                                assert(prefix_clash(m.files@));
                            }
                            return Err(e);
                        },
                    }
                    assert forall|k: int| 0 <= k < i + 1 implies #[trigger] find(root, names(m.files@[k].path@)) is Some by {
                        if k < i {
                            assert(find(before, names(m.files@[k].path@)) is Some);
                        }
                    }
                    assert forall|q: Seq<Seq<char>>| #[trigger] find(root, q) == Some(true) implies exists|j: int|
                        0 <= j < i + 1 && q == names(#[trigger] m.files@[j].path@) by {
                        if find(before, q) != Some(true) {
                            assert(q == names(m.files@[i as int].path@));
                        }
                    }
                    proof {
                        let next = trees.push(root);
                        assert(next.drop_last() =~= trees);
                        assert(next[i as int] == before);
                        trees = next;
                    }
                    i += 1;
                }
                assert(trees[m.files@.len() as int] == root);
            },
            InfoEnum::SingleFile(s) => {
                let path = vec![s.name.clone()];
                let ghost before = root;
                proof {
                    assert(names(path@) =~= seq![s.name@]);
                    assert(!crate::files::blocked(before, names(path@))) by {
                        if crate::files::blocked(before, names(path@)) {
                            let k = choose|k: int| 0 <= k < 1 && #[trigger] find(before, names(path@).take(k)) == Some(true);
                            assert(names(path@).take(k).len() == 0);
                        }
                    }
                }
                root.insert_path(path.as_slice())?;
            },
        }
        Ok(root)
    }

    /// A tracker session for this torrent, due to announce at `now`.
    pub fn tracker_session(&self, peer_id: &str, now: u64) -> (r: TrackerSession)
        ensures
            r.url@ == self.metainfo.announce@,
            r.info_hash@ == percent_encoded(self.info_hash@),
            r.peer_id@ == peer_id@,
            r.next_announce == now,
            !r.started,
    {
        TrackerSession::new(&self.metainfo, &self.info_hash, peer_id, now)
    }

    /// The piece table of this torrent, none verified yet.
    pub fn piece_manager(&self) -> (r: Result<PieceManager, LayoutError>)
        ensures
            r matches Ok(m) ==> m.wf() && table_laid_out(
                m.piece_metadata@,
                files_total(self.metainfo.info),
                self.metainfo.info.piece_length_spec() as int,
            ) && digests_match(m.piece_metadata@, self.metainfo.info.pieces_spec()),
            (0 < self.metainfo.info.piece_length_spec() <= usize::MAX
                && self.metainfo.info.pieces_spec().len() % 20 == 0 && files_total(self.metainfo.info)
                <= usize::MAX && self.metainfo.info.pieces_spec().len() / 20 <= u32::MAX
                && piece_count_fits(
                files_total(self.metainfo.info),
                self.metainfo.info.piece_length_spec() as int,
                (self.metainfo.info.pieces_spec().len() / 20) as int,
            )) ==> r is Ok,
    {
        PieceManager::from_info(&self.metainfo.info)
    }
}

} // verus!
