//! Announce requests to a tracker and the session state its answers update.
use vstd::prelude::*;

use crate::metainfo::MetaInfo;
use crate::peer_list::{MalformedPeers, Peer, PeersEnum};
use crate::text::{decimal, push_decimal, push_str};

verus! {

/// Port announced to trackers.
pub const LISTEN_PORT: u64 = 6882;

/// Peers asked for in each announce.
pub const NUMWANT: u64 = 50;

/// Seconds to wait before announcing again after a failed announce, or when
/// the deadline lies in the past.
pub const RETRY_SECS: u64 = 5;

#[derive(Clone, Copy, Debug, PartialEq, Eq, Structural)]
pub enum TrackerEvent {
    Started,
    Stopped,
    Completed,
}

/// The value of the `event` parameter.
pub open spec fn event_text(e: TrackerEvent) -> Seq<char> {
    match e {
        TrackerEvent::Started => "started"@,
        TrackerEvent::Stopped => "stopped"@,
        TrackerEvent::Completed => "completed"@,
    }
}

impl TrackerEvent {
    pub fn as_str(&self) -> (r: &'static str)
        ensures
            r@ == event_text(*self),
    {
        match self {
            TrackerEvent::Started => "started",
            TrackerEvent::Stopped => "stopped",
            TrackerEvent::Completed => "completed",
        }
    }
}

/// Bytes that percent-encoding leaves as they are: ASCII letters, digits and
/// `-`, `.`, `_`, `~`.
pub open spec fn unreserved(b: u8) -> bool {
    (48 <= b <= 57) || (65 <= b <= 90) || (97 <= b <= 122) || b == 45 || b == 46 || b == 95 || b
        == 126
}

/// Upper-case hexadecimal digit for `d < 16`.
pub open spec fn hex_digit(d: u8) -> char {
    if d < 10 {
        (48 + d) as char
    } else {
        (55 + d) as char
    }
}

pub open spec fn encoded_byte(b: u8) -> Seq<char> {
    if unreserved(b) {
        seq![b as char]
    } else {
        seq!['%', hex_digit(b / 16), hex_digit(b % 16)]
    }
}

/// Every byte of `b` percent-encoded, unreserved bytes kept.
pub open spec fn percent_encoded(b: Seq<u8>) -> Seq<char>
    decreases b.len(),
{
    if b.len() == 0 {
        Seq::empty()
    } else {
        percent_encoded(b.drop_last()) + encoded_byte(b.last())
    }
}

/// Relies on urlencoding::encode_binary: percent-encodes every byte but ASCII
/// letters, digits and `-`, `.`, `_`, `~`, with upper-case hexadecimal.
#[verifier::external_body]
pub(crate) fn encode_binary(b: &[u8]) -> (r: String)
    ensures
        r@ == percent_encoded(b@),
{
    urlencoding::encode_binary(b).into_owned()
}

/// Bytes that form encoding leaves as they are: ASCII letters, digits and
/// `*`, `-`, `.`, `_`.
pub open spec fn form_unreserved(b: u8) -> bool {
    (48 <= b <= 57) || (65 <= b <= 90) || (97 <= b <= 122) || b == 42 || b == 45 || b == 46 || b
        == 95
}

/// One byte form-encoded: kept, a space as `+`, any other as `%XX`.
pub open spec fn form_byte(b: u8) -> Seq<char> {
    if form_unreserved(b) {
        seq![b as char]
    } else if b == 32 {
        seq!['+']
    } else {
        seq!['%', hex_digit(b / 16), hex_digit(b % 16)]
    }
}

pub open spec fn form_bytes(b: Seq<u8>) -> Seq<char>
    decreases b.len(),
{
    if b.len() == 0 {
        Seq::empty()
    } else {
        form_bytes(b.drop_last()) + form_byte(b.last())
    }
}

/// A text form-encoded byte by byte over its UTF-8 encoding.
pub open spec fn form_text(s: Seq<char>) -> Seq<char> {
    form_bytes(vstd::utf8::encode_utf8(s))
}

/// What `application/x-www-form-urlencoded` makes of a list of key-value
/// pairs: `key=value` for each, joined by `&`.
pub open spec fn form_urlencoded(pairs: Seq<(Seq<char>, Seq<char>)>) -> Seq<char>
    decreases pairs.len(),
{
    if pairs.len() == 0 {
        Seq::empty()
    } else {
        let prev = form_urlencoded(pairs.drop_last());
        let sep = if prev.len() > 0 {
            seq!['&']
        } else {
            Seq::empty()
        };
        prev + sep + form_text(pairs.last().0) + seq!['='] + form_text(pairs.last().1)
    }
}

pub open spec fn pairs_view(pairs: Seq<(String, String)>) -> Seq<(Seq<char>, Seq<char>)> {
    pairs.map_values(|p: (String, String)| (p.0@, p.1@))
}

/// Relies on serde_urlencoded::to_string: for a sequence of string pairs it
/// writes `key=value` for each, joined by `&`, each part form-encoded over its
/// UTF-8 bytes (letters, digits and `*-._` kept, a space as `+`, any other
/// byte as upper-case `%XX`); a sequence of string pairs never fails.
#[verifier::external_body]
fn form_encode(pairs: &Vec<(String, String)>) -> (r: String)
    ensures
        r@ == form_urlencoded(pairs_view(pairs@)),
{
    match serde_urlencoded::to_string(pairs) {
        Ok(s) => s,
        Err(_) => String::new(),
    }
}

/// An announce request.
#[derive(Debug, PartialEq, Eq)]
pub struct TrackerRequest {
    /// The info hash, already percent-encoded.
    pub info_hash: String,
    pub peer_id: String,
    pub port: u64,
    pub uploaded: u64,
    pub downloaded: u64,
    pub left: u64,
    pub compact: Option<u64>,
    pub no_peer_id: Option<bool>,
    pub numwant: u64,
    pub event: Option<TrackerEvent>,
    pub ip: Option<String>,
    pub key: Option<String>,
    pub trackerid: Option<String>,
}

/// A one-pair list where `v` is present.
pub open spec fn opt_pair(key: Seq<char>, v: Option<Seq<char>>) -> Seq<(Seq<char>, Seq<char>)> {
    match v {
        Some(x) => seq![(key, x)],
        None => Seq::empty(),
    }
}

pub open spec fn bool_text(b: bool) -> Seq<char> {
    if b {
        "true"@
    } else {
        "false"@
    }
}

pub open spec fn opt_string(s: Option<String>) -> Option<Seq<char>> {
    match s {
        Some(x) => Some(x@),
        None => None,
    }
}

/// The query parameters of `r` in their order, absent options left out; the
/// info hash is not among them.
pub open spec fn query_pairs_spec(r: TrackerRequest) -> Seq<(Seq<char>, Seq<char>)> {
    seq![
        ("peer_id"@, r.peer_id@),
        ("port"@, decimal(r.port as nat)),
        ("uploaded"@, decimal(r.uploaded as nat)),
        ("downloaded"@, decimal(r.downloaded as nat)),
        ("left"@, decimal(r.left as nat)),
    ] + opt_pair(
        "compact"@,
        match r.compact {
            Some(c) => Some(decimal(c as nat)),
            None => None,
        },
    ) + opt_pair(
        "no_peer_id"@,
        match r.no_peer_id {
            Some(b) => Some(bool_text(b)),
            None => None,
        },
    ) + seq![("numwant"@, decimal(r.numwant as nat))] + opt_pair(
        "event"@,
        match r.event {
            Some(e) => Some(event_text(e)),
            None => None,
        },
    ) + opt_pair("ip"@, opt_string(r.ip)) + opt_pair("key"@, opt_string(r.key)) + opt_pair(
        "trackerid"@,
        opt_string(r.trackerid),
    )
}

fn string_of(s: &str) -> (r: String)
    ensures
        r@ == s@,
{
    String::from_str(s)
}

fn decimal_string(n: u64) -> (r: String)
    ensures
        r@ == decimal(n as nat),
{
    let mut s = String::new();
    push_decimal(&mut s, n);
    s
}

fn push_opt(pairs: &mut Vec<(String, String)>, key: &str, v: Option<String>)
    ensures
        pairs_view(final(pairs)@) == pairs_view(old(pairs)@) + opt_pair(key@, opt_string(v)),
{
    let ghost start = pairs@;
    match v {
        Some(x) => {
            pairs.push((string_of(key), x));
        },
        None => {},
    }
    assert(pairs_view(pairs@) =~= pairs_view(start) + opt_pair(key@, opt_string(v)));
}

impl TrackerRequest {
    /// A first announce: port 6882, 50 peers wanted, event `started`, nothing
    /// transferred yet.
    pub fn new(info_hash: &str, peer_id: &str) -> (r: TrackerRequest)
        ensures
            r.info_hash@ == info_hash@,
            r.peer_id@ == peer_id@,
            r.port == LISTEN_PORT,
            r.numwant == NUMWANT,
            r.uploaded == 0 && r.downloaded == 0 && r.left == 0,
            r.event == Some(TrackerEvent::Started),
            r.compact is None && r.no_peer_id is None && r.ip is None && r.key is None
                && r.trackerid is None,
    {
        TrackerRequest {
            info_hash: string_of(info_hash),
            peer_id: string_of(peer_id),
            port: LISTEN_PORT,
            uploaded: 0,
            downloaded: 0,
            left: 0,
            compact: None,
            no_peer_id: None,
            numwant: NUMWANT,
            event: Some(TrackerEvent::Started),
            ip: None,
            key: None,
            trackerid: None,
        }
    }

    /// The query parameters but the info hash, as key-value pairs.
    pub fn query_pairs(&self) -> (r: Vec<(String, String)>)
        ensures
            pairs_view(r@) == query_pairs_spec(*self),
    {
        let mut pairs: Vec<(String, String)> = Vec::new();
        pairs.push((string_of("peer_id"), self.peer_id.clone()));
        pairs.push((string_of("port"), decimal_string(self.port)));
        pairs.push((string_of("uploaded"), decimal_string(self.uploaded)));
        pairs.push((string_of("downloaded"), decimal_string(self.downloaded)));
        pairs.push((string_of("left"), decimal_string(self.left)));
        let ghost head = pairs@;
        assert(pairs_view(head) =~= seq![
            ("peer_id"@, self.peer_id@),
            ("port"@, decimal(self.port as nat)),
            ("uploaded"@, decimal(self.uploaded as nat)),
            ("downloaded"@, decimal(self.downloaded as nat)),
            ("left"@, decimal(self.left as nat)),
        ]);
        let compact = match self.compact {
            Some(c) => Some(decimal_string(c)),
            None => None,
        };
        push_opt(&mut pairs, "compact", compact);
        let no_peer_id = match self.no_peer_id {
            Some(b) => Some(
                if b {
                    string_of("true")
                } else {
                    string_of("false")
                },
            ),
            None => None,
        };
        push_opt(&mut pairs, "no_peer_id", no_peer_id);
        let ghost before_numwant = pairs@;
        pairs.push((string_of("numwant"), decimal_string(self.numwant)));
        assert(pairs_view(pairs@) =~= pairs_view(before_numwant) + seq![("numwant"@, decimal(self.numwant as nat))]);
        let event = match self.event {
            Some(e) => Some(string_of(e.as_str())),
            None => None,
        };
        push_opt(&mut pairs, "event", event);
        let ip = match &self.ip {
            Some(x) => Some(x.clone()),
            None => None,
        };
        push_opt(&mut pairs, "ip", ip);
        let key = match &self.key {
            Some(x) => Some(x.clone()),
            None => None,
        };
        push_opt(&mut pairs, "key", key);
        let trackerid = match &self.trackerid {
            Some(x) => Some(x.clone()),
            None => None,
        };
        push_opt(&mut pairs, "trackerid", trackerid);
        pairs
    }

    /// The announce query: the form-encoded parameters, then the info hash
    /// last, as it stands.
    pub fn to_query_string(&self) -> (r: String)
        ensures
            r@ == form_urlencoded(query_pairs_spec(*self)) + "&info_hash="@ + self.info_hash@,
    {
        let pairs = self.query_pairs();
        let mut encoded = form_encode(&pairs);
        push_str(&mut encoded, "&info_hash=");
        push_str(&mut encoded, self.info_hash.as_str());
        encoded
    }
}

/// A tracker's answer, with the keys it may hold.
#[derive(Debug, PartialEq, Eq)]
pub struct TrackerResponse {
    pub failure_reason: Option<String>,
    pub warning_message: Option<String>,
    pub interval: Option<u64>,
    pub min_interval: Option<u64>,
    pub tracker_id: Option<String>,
    pub complete: Option<u64>,
    pub incomplete: Option<u64>,
    pub peers: Option<PeersEnum>,
}

/// Why an announce gave nothing.
#[derive(Debug, PartialEq, Eq)]
pub enum TrackerError {
    /// The tracker answered with a failure reason.
    Failure(String),
    /// The compact peer list does not split into six-byte records.
    MalformedPeers,
}

/// One torrent's standing with its tracker. Times are whole seconds on the
/// caller's clock.
pub struct TrackerSession {
    pub started: bool,
    /// The info hash, percent-encoded.
    pub info_hash: String,
    pub peer_id: String,
    pub url: String,
    pub interval: u64,
    pub min_interval: Option<u64>,
    pub next_announce: u64,
    pub downloaded: u64,
    pub uploaded: u64,
    pub left: u64,
    /// The event the next announce reports.
    pub event: Option<TrackerEvent>,
    pub tracker_id: Option<String>,
    pub peer_list: Vec<Peer>,
}

pub open spec fn saturating_sum(a: u64, b: u64) -> u64 {
    if a + b > u64::MAX {
        u64::MAX
    } else {
        (a + b) as u64
    }
}

impl TrackerSession {
    /// A session that has not announced yet; its first announce is due at
    /// `now` and reports `started`.
    pub fn new(metainfo: &MetaInfo, info_hash: &[u8; 20], peer_id: &str, now: u64) -> (r: TrackerSession)
        ensures
            !r.started,
            r.info_hash@ == percent_encoded(info_hash@),
            r.peer_id@ == peer_id@,
            r.url@ == metainfo.announce@,
            r.interval == 0,
            r.min_interval is None,
            r.next_announce == now,
            r.downloaded == 0 && r.uploaded == 0 && r.left == 0,
            r.event == Some(TrackerEvent::Started),
            r.tracker_id is None,
            r.peer_list@.len() == 0,
    {
        TrackerSession {
            started: false,
            info_hash: encode_binary(info_hash.as_slice()),
            peer_id: string_of(peer_id),
            url: metainfo.announce.clone(),
            interval: 0,
            min_interval: None,
            next_announce: now,
            downloaded: 0,
            uploaded: 0,
            left: 0,
            event: Some(TrackerEvent::Started),
            tracker_id: None,
            peer_list: Vec::new(),
        }
    }

    /// Sets the started flag; true only the first time, so that a torrent is
    /// started once.
    pub fn mark_started(&mut self) -> (r: bool)
        ensures
            r == !old(self).started,
            final(self).started,
            old(self).started ==> *final(self) == *old(self),
            !old(self).started ==> *final(self) == (TrackerSession { started: true, ..*old(self) }),
    {
        if self.started {
            false
        } else {
            self.started = true;
            true
        }
    }

    /// The next announce: the counters, the pending event and the tracker id.
    pub fn create_request(&self) -> (r: TrackerRequest)
        ensures
            r.info_hash@ == self.info_hash@,
            r.peer_id@ == self.peer_id@,
            r.port == LISTEN_PORT,
            r.numwant == NUMWANT,
            r.uploaded == self.uploaded,
            r.downloaded == self.downloaded,
            r.left == self.left,
            r.event == self.event,
            opt_string(r.trackerid) == opt_string(self.tracker_id),
            r.compact is None && r.no_peer_id is None && r.ip is None && r.key is None,
    {
        let mut request = TrackerRequest::new(self.info_hash.as_str(), self.peer_id.as_str());
        request.event = self.event;
        request.uploaded = self.uploaded;
        request.downloaded = self.downloaded;
        request.left = self.left;
        request.trackerid = match &self.tracker_id {
            Some(t) => Some(t.clone()),
            None => None,
        };
        request
    }

    /// Takes in a tracker's answer received at `now`. A failure reason makes
    /// it ignore every other key; a malformed peer list rejects the answer.
    /// Otherwise the peer list, interval, minimum interval and tracker id are
    /// taken where present, the next announce falls `interval` seconds after
    /// `now`, and no event is pending any more.
    pub fn update(&mut self, response: TrackerResponse, now: u64) -> (r: Result<(), TrackerError>)
        ensures
            response.failure_reason is Some ==> r == Err::<(), TrackerError>(
                TrackerError::Failure(response.failure_reason->0),
            ),
            response.failure_reason is None && (response.peers matches Some(p) && p.is_malformed())
                ==> r == Err::<(), TrackerError>(TrackerError::MalformedPeers),
            r is Err ==> *final(self) == *old(self),
            r is Ok ==> ({
                &&& response.failure_reason is None
                &&& final(self).interval == match response.interval {
                    Some(t) => t,
                    None => old(self).interval,
                }
                &&& final(self).next_announce == saturating_sum(now, final(self).interval)
                &&& final(self).min_interval == match response.min_interval {
                    Some(t) => Some(t),
                    None => old(self).min_interval,
                }
                &&& opt_string(final(self).tracker_id) == match response.tracker_id {
                    Some(t) => Some(t@),
                    None => opt_string(old(self).tracker_id),
                }
                &&& final(self).event is None
                &&& response.peers is None ==> final(self).peer_list == old(self).peer_list
                &&& final(self).started == old(self).started
                &&& final(self).info_hash == old(self).info_hash
                &&& final(self).peer_id == old(self).peer_id
                &&& final(self).url == old(self).url
                &&& final(self).downloaded == old(self).downloaded
                &&& final(self).uploaded == old(self).uploaded
                &&& final(self).left == old(self).left
            }),
            r is Ok && response.peers is Some ==> response.peers->0.peers_of(final(self).peer_list@),
            response.failure_reason is None && !(response.peers matches Some(p) && p.is_malformed())
                ==> r is Ok,
    {
        if let Some(reason) = response.failure_reason {
            return Err(TrackerError::Failure(reason));
        }
        let peers = match &response.peers {
            Some(p) => match p.to_peers() {
                Ok(list) => Some(list),
                Err(MalformedPeers) => {
                    return Err(TrackerError::MalformedPeers);
                },
            },
            None => None,
        };
        if let Some(list) = peers {
            self.peer_list = list;
        }
        if let Some(t) = response.interval {
            self.interval = t;
        }
        self.next_announce = now.saturating_add(self.interval);
        if let Some(t) = response.min_interval {
            self.min_interval = Some(t);
        }
        if let Some(t) = response.tracker_id {
            self.tracker_id = Some(t);
        }
        self.event = None;
        Ok(())
    }

    /// When to announce next: `RETRY_SECS` after `now` if the last announce
    /// failed or its deadline has already passed, else that deadline.
    pub fn announce_deadline(&self, now: u64, announced: bool) -> (r: u64)
        ensures
            r == if !announced || self.next_announce < now {
                saturating_sum(now, RETRY_SECS)
            } else {
                self.next_announce
            },
    {
        if !announced || self.next_announce < now {
            now.saturating_add(RETRY_SECS)
        } else {
            self.next_announce
        }
    }

    /// Reports the download finished with the next announce.
    pub fn set_completed(&mut self)
        ensures
            final(self).event == Some(TrackerEvent::Completed),
            final(self).peer_list == old(self).peer_list,
            final(self).started == old(self).started,
            final(self).next_announce == old(self).next_announce,
    {
        self.event = Some(TrackerEvent::Completed);
    }
}

} // verus!
