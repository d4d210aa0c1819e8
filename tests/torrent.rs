use btrs::files::{FileKind, NotADirectory};
use btrs::metainfo::{FilesDict, InfoEnum, InfoMultiFile, InfoSingleFile, MetaInfo};
use btrs::pieces::{LayoutError, PieceError, PieceManager, PieceOutcome, PieceRequest, PieceResponse};
use btrs::torrent::{LoadError, Torrent};
use sha1::{Digest, Sha1};

fn sha1(data: &[u8]) -> [u8; 20] {
    Sha1::digest(data).into()
}

fn single(length: u64, piece_length: u64, pieces: Vec<u8>) -> MetaInfo {
    MetaInfo {
        info: InfoEnum::SingleFile(InfoSingleFile {
            name: "a.txt".to_string(),
            length,
            md5: None,
            piece_length,
            pieces,
        }),
        announce: "http://tracker.test/announce".to_string(),
        announce_list: None,
        creation_date: None,
        comment: None,
        created_by: None,
        encoding: None,
    }
}

fn multi(files: Vec<(u64, Vec<&str>)>, piece_length: u64, pieces: Vec<u8>) -> MetaInfo {
    let mut m = single(0, piece_length, vec![]);
    m.info = InfoEnum::MultiFile(InfoMultiFile {
        name: "dir".to_string(),
        piece_length,
        pieces,
        files: files
            .into_iter()
            .map(|(length, path)| FilesDict {
                length,
                md5: None,
                path: path.into_iter().map(String::from).collect(),
            })
            .collect(),
    });
    m
}

fn descriptor(info: &[u8]) -> Vec<u8> {
    let mut bytes = b"d8:announce28:http://tracker.test/announce4:info".to_vec();
    bytes.extend_from_slice(info);
    bytes.extend_from_slice(b"7:comment2:hie");
    bytes
}

fn info_dict(digest: &[u8; 20]) -> Vec<u8> {
    let mut info = b"d6:lengthi3e4:name5:a.txt12:piece lengthi3e6:pieces20:".to_vec();
    info.extend_from_slice(digest);
    info.push(b'e');
    info
}

#[test]
fn info_hash_covers_raw_info_bytes() {
    let digest = sha1(b"abc");
    let info = info_dict(&digest);
    let bytes = descriptor(&info);
    let torrent = Torrent::load(&bytes, single(3, 3, digest.to_vec())).unwrap();
    assert_eq!(torrent.info_hash(), &sha1(&info)[..]);
    assert_ne!(torrent.info_hash(), &sha1(&bytes)[..]);
    assert_eq!(torrent.name(), "a.txt");
}

#[test]
fn info_hash_of_nested_info() {
    // Lists, negative integers and a key that sorts after `info`.
    let info = b"d5:filesld6:lengthi-1e4:pathl1:a1:beee4:name1:xe".to_vec();
    let mut bytes = b"d4:info".to_vec();
    bytes.extend_from_slice(&info);
    bytes.extend_from_slice(b"4:zzzzi0ee");
    let torrent = Torrent::load(&bytes, single(3, 3, vec![0; 20])).unwrap();
    assert_eq!(torrent.info_hash(), &sha1(&info)[..]);
}

#[test]
fn missing_info_is_an_error() {
    let bytes = b"d8:announce3:urle".to_vec();
    assert!(matches!(Torrent::load(&bytes, single(3, 3, vec![0; 20])), Err(LoadError::MissingInfo)));
    // Not a complete dictionary.
    let digest = sha1(b"abc");
    let mut truncated = descriptor(&info_dict(&digest));
    truncated.pop();
    assert!(matches!(Torrent::load(&truncated, single(3, 3, vec![0; 20])), Err(LoadError::MissingInfo)));
}

#[test]
fn verified_piece_goes_to_storage() {
    let digest = sha1(b"abc");
    let torrent = Torrent::load(&descriptor(&info_dict(&digest)), single(3, 3, digest.to_vec())).unwrap();
    let mut manager = torrent.piece_manager().unwrap();
    let queue = manager.initial_requests();
    assert_eq!(queue.len(), 1);
    assert_eq!(queue[0], PieceRequest { piece_index: 0, length_bytes: 3 });
    assert!(!manager.is_done());

    let bad = manager.handle_response(PieceResponse { piece_index: 0, result: Ok(b"abd".to_vec()) });
    assert_eq!(
        bad,
        PieceOutcome::Requeue { request: PieceRequest { piece_index: 0, length_bytes: 3 }, drop_peer: false }
    );
    assert!(!manager.is_done());

    let good = manager.handle_response(PieceResponse { piece_index: 0, result: Ok(b"abc".to_vec()) });
    assert_eq!(good, PieceOutcome::Store { index: 0, bytes: b"abc".to_vec() });
    assert!(manager.is_done());
}

#[test]
fn error_responses_are_requeued() {
    let mut manager = PieceManager::from_info(&single(5, 2, vec![0; 60]).info).unwrap();
    let cases = [
        (PieceError::PieceUnavailable, false),
        (PieceError::InvalidData("x".to_string()), false),
        (PieceError::Timeout, true),
        (PieceError::PeerChoked, true),
        (PieceError::ConnectionLost, true),
    ];
    for (e, drop_peer) in cases {
        let out = manager.handle_response(PieceResponse { piece_index: 2, result: Err(e) });
        assert_eq!(
            out,
            PieceOutcome::Requeue { request: PieceRequest { piece_index: 2, length_bytes: 1 }, drop_peer }
        );
    }
    let unknown = manager.handle_response(PieceResponse { piece_index: 3, result: Ok(vec![]) });
    assert_eq!(unknown, PieceOutcome::Ignored);
}

#[test]
fn last_piece_takes_the_remainder() {
    let manager = PieceManager::from_info(&multi(vec![(5, vec!["a"]), (6, vec!["b"])], 4, vec![0; 60]).info).unwrap();
    let lengths: Vec<usize> = manager.piece_metadata.iter().map(|m| m.length).collect();
    let offsets: Vec<usize> = manager.piece_metadata.iter().map(|m| m.offset).collect();
    assert_eq!(lengths, vec![4, 4, 3]);
    assert_eq!(offsets, vec![0, 4, 8]);
    let exact = PieceManager::from_info(&single(8, 4, vec![0; 40]).info).unwrap();
    let lengths: Vec<usize> = exact.piece_metadata.iter().map(|m| m.length).collect();
    assert_eq!(lengths, vec![4, 4]);
}

#[test]
fn bad_piece_tables_are_rejected() {
    assert_eq!(PieceManager::from_info(&single(8, 0, vec![0; 40]).info).err(), Some(LayoutError::ZeroPieceLength));
    assert_eq!(PieceManager::from_info(&single(8, 4, vec![0; 41]).info).err(), Some(LayoutError::DigestTableLength));
    assert_eq!(PieceManager::from_info(&single(8, 4, vec![0; 60]).info).err(), Some(LayoutError::PieceCountMismatch));
    assert_eq!(PieceManager::from_info(&single(9, 4, vec![0; 40]).info).err(), Some(LayoutError::PieceCountMismatch));
    let huge = multi(vec![(u64::MAX, vec!["a"]), (1, vec!["b"])], 4, vec![0; 20]);
    assert_eq!(PieceManager::from_info(&huge.info).err(), Some(LayoutError::TooLarge));
}

#[test]
fn file_tree_of_single_and_multi_file() {
    let digest = sha1(b"abc");
    let torrent = Torrent::load(&descriptor(&info_dict(&digest)), single(3, 3, digest.to_vec())).unwrap();
    let tree = torrent.get_file_tree().unwrap();
    assert_eq!(tree.name, ".");
    match &tree.kind {
        FileKind::Directory { children } => {
            assert_eq!(children.len(), 1);
            assert_eq!(children[0].name, "a.txt");
            assert!(matches!(children[0].kind, FileKind::File));
        }
        FileKind::File => panic!("root is not a directory"),
    }

    let meta = multi(vec![(1, vec!["d", "x"]), (1, vec!["d", "y"])], 4, vec![0; 20]);
    let torrent = Torrent::load(&descriptor(&info_dict(&digest)), meta).unwrap();
    let tree = torrent.get_file_tree().unwrap();
    match &tree.kind {
        FileKind::Directory { children } => {
            assert_eq!(children.len(), 1);
            match &children[0].kind {
                FileKind::Directory { children } => assert_eq!(children.len(), 2),
                FileKind::File => panic!("d is not a directory"),
            }
        }
        FileKind::File => panic!("root is not a directory"),
    }

    let clash = multi(vec![(1, vec!["d"]), (1, vec!["d", "y"])], 4, vec![0; 20]);
    let torrent = Torrent::load(&descriptor(&info_dict(&digest)), clash).unwrap();
    assert_eq!(torrent.get_file_tree().err(), Some(NotADirectory));
}

#[test]
fn tracker_session_of_torrent() {
    let digest = sha1(b"abc");
    let torrent = Torrent::load(&descriptor(&info_dict(&digest)), single(3, 3, digest.to_vec())).unwrap();
    let session = torrent.tracker_session("-RS0001-abcdefghijkl", 42);
    assert_eq!(session.url, "http://tracker.test/announce");
    assert_eq!(session.next_announce, 42);
    assert!(!session.started);
}
