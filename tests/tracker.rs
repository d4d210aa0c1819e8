use btrs::metainfo::{InfoEnum, InfoSingleFile, MetaInfo};
use btrs::peer_list::{MalformedPeers, PeersDict, PeersEnum};
use btrs::tracker::{TrackerError, TrackerEvent, TrackerRequest, TrackerResponse, TrackerSession};

fn metainfo() -> MetaInfo {
    MetaInfo {
        info: InfoEnum::SingleFile(InfoSingleFile {
            name: "a.txt".to_string(),
            length: 3,
            md5: None,
            piece_length: 3,
            pieces: vec![0; 20],
        }),
        announce: "http://tracker.test/announce".to_string(),
        announce_list: None,
        creation_date: None,
        comment: None,
        created_by: None,
        encoding: None,
    }
}

fn response(interval: Option<u64>, peers: Option<PeersEnum>) -> TrackerResponse {
    TrackerResponse {
        failure_reason: None,
        warning_message: None,
        interval,
        min_interval: None,
        tracker_id: None,
        complete: None,
        incomplete: None,
        peers,
    }
}

#[test]
fn tracker_test_to_query_string() {
    let request = TrackerRequest::new(
        "%DA%BFr%01%9D%EFM0%AF%00%F4%BFM%DF%8Ais%0C%02%B4",
        "-RS0001-kONXltkhXIr5",
    );

    let expected_result = "peer_id=-RS0001-kONXltkhXIr5&port=6882&uploaded=0&downloaded=0&left=0&numwant=50&event=started&info_hash=%DA%BFr%01%9D%EFM0%AF%00%F4%BFM%DF%8Ais%0C%02%B4";

    assert_eq!(request.to_query_string(), expected_result);
}

#[test]
fn query_pairs_keep_order_and_skip_absent() {
    let mut request = TrackerRequest::new("x", "id");
    request.compact = Some(1);
    request.no_peer_id = Some(true);
    request.event = None;
    request.trackerid = Some("t 1".to_string());
    let pairs: Vec<(String, String)> = request.query_pairs();
    let keys: Vec<&str> = pairs.iter().map(|(k, _)| k.as_str()).collect();
    assert_eq!(
        keys,
        vec!["peer_id", "port", "uploaded", "downloaded", "left", "compact", "no_peer_id", "numwant", "trackerid"]
    );
    assert_eq!(
        request.to_query_string(),
        "peer_id=id&port=6882&uploaded=0&downloaded=0&left=0&compact=1&no_peer_id=true&numwant=50&trackerid=t+1&info_hash=x"
    );
}

#[test]
fn info_hash_is_percent_encoded_bytewise() {
    let mut hash = [0u8; 20];
    hash[0] = 0xDA;
    hash[1] = b'r';
    hash[2] = b'~';
    let session = TrackerSession::new(&metainfo(), &hash, "-RS0001-abcdefghijkl", 0);
    assert!(session.info_hash.starts_with("%DAr~%00"));
    assert_eq!(session.info_hash.len(), 3 + 1 + 1 + 17 * 3);
    assert_eq!(session.url, "http://tracker.test/announce");
    assert_eq!(session.event, Some(TrackerEvent::Started));
}

#[test]
fn announce_rescheduling() {
    let mut session = TrackerSession::new(&metainfo(), &[1; 20], "-RS0001-abcdefghijkl", 0);
    let now = 1_000;
    assert_eq!(session.update(response(Some(1800), None), now), Ok(()));
    assert_eq!(session.interval, 1800);
    assert_eq!(session.next_announce, now + 1800);
    assert_eq!(session.announce_deadline(now, true), now + 1800);
    // The clock has moved past the deadline: wait exactly five seconds.
    assert_eq!(session.announce_deadline(now + 5_000, true), now + 5_005);
    // A failed announce retries after five seconds.
    assert_eq!(session.announce_deadline(now, false), now + 5);
    // After the first announce no event is pending.
    assert_eq!(session.event, None);
    assert_eq!(session.create_request().event, None);
}

#[test]
fn first_request_reports_started() {
    let session = TrackerSession::new(&metainfo(), &[1; 20], "-RS0001-abcdefghijkl", 0);
    let request = session.create_request();
    assert_eq!(request.event, Some(TrackerEvent::Started));
    assert_eq!(request.port, 6882);
    assert_eq!(request.numwant, 50);
}

#[test]
fn failure_reason_wins() {
    let mut session = TrackerSession::new(&metainfo(), &[1; 20], "-RS0001-abcdefghijkl", 0);
    let mut resp = response(Some(60), Some(PeersEnum::Compact(vec![10, 0, 0, 1, 0x1A, 0xE1])));
    resp.failure_reason = Some("banned".to_string());
    assert_eq!(
        session.update(resp, 10),
        Err(TrackerError::Failure("banned".to_string()))
    );
    assert!(session.peer_list.is_empty());
    assert_eq!(session.interval, 0);
}

#[test]
fn malformed_peers_rejected() {
    let mut session = TrackerSession::new(&metainfo(), &[1; 20], "-RS0001-abcdefghijkl", 0);
    let resp = response(Some(60), Some(PeersEnum::Compact(vec![10, 0, 0, 1, 0x1A])));
    assert_eq!(session.update(resp, 10), Err(TrackerError::MalformedPeers));
    assert_eq!(session.next_announce, 0);
}

#[test]
fn start_only_once() {
    let mut session = TrackerSession::new(&metainfo(), &[1; 20], "-RS0001-abcdefghijkl", 0);
    assert!(session.mark_started());
    assert!(!session.mark_started());
    assert!(session.started);
}

#[test]
fn compact_peer_decode() {
    let peers = PeersEnum::Compact(vec![0x0A, 0x00, 0x00, 0x01, 0x1A, 0xE1, 0x0A, 0x00, 0x00, 0x02, 0x1A, 0xE2]);
    let list = peers.to_peers().unwrap();
    assert_eq!(list.len(), 2);
    assert_eq!((list[0].ip.as_str(), list[0].port), ("10.0.0.1", 6881));
    assert_eq!((list[1].ip.as_str(), list[1].port), ("10.0.0.2", 6882));
}

#[test]
fn compact_decode_keeps_count_and_order() {
    let mut bytes = Vec::new();
    for i in 0..5u8 {
        bytes.extend_from_slice(&[192, 168, i, 255 - i, 0, i]);
    }
    let list = PeersEnum::Compact(bytes).to_peers().unwrap();
    assert_eq!(list.len(), 5);
    for (i, peer) in list.iter().enumerate() {
        assert_eq!(peer.ip, format!("192.168.{}.{}", i, 255 - i));
        assert_eq!(peer.port, i as u64);
    }
}

#[test]
fn compact_trailing_bytes_are_an_error() {
    assert_eq!(PeersEnum::Compact(vec![1, 2, 3, 4, 5, 6, 7]).to_peers(), Err(MalformedPeers));
}

#[test]
fn dict_peers_keep_order() {
    let peers = PeersEnum::Dict(vec![
        PeersDict { peer_id: vec![1; 20], ip: "b.example".to_string(), port: 2 },
        PeersDict { peer_id: vec![2; 20], ip: "a.example".to_string(), port: 1 },
    ]);
    let list = peers.to_peers().unwrap();
    assert_eq!(list.len(), 2);
    assert_eq!((list[0].ip.as_str(), list[0].port), ("b.example", 2));
    assert_eq!((list[1].ip.as_str(), list[1].port), ("a.example", 1));
}

#[test]
fn update_takes_peers_and_intervals() {
    let mut session = TrackerSession::new(&metainfo(), &[1; 20], "-RS0001-abcdefghijkl", 0);
    let mut resp = response(Some(900), Some(PeersEnum::Compact(vec![127, 0, 0, 1, 0x1A, 0xE1])));
    resp.min_interval = Some(60);
    resp.tracker_id = Some("abc".to_string());
    assert_eq!(session.update(resp, 5), Ok(()));
    assert_eq!(session.peer_list.len(), 1);
    assert_eq!(session.peer_list[0].ip, "127.0.0.1");
    assert_eq!(session.min_interval, Some(60));
    assert_eq!(session.tracker_id.as_deref(), Some("abc"));
    assert_eq!(session.next_announce, 905);
    assert_eq!(session.create_request().trackerid.as_deref(), Some("abc"));
    session.set_completed();
    assert_eq!(session.create_request().event, Some(TrackerEvent::Completed));
}
