//! The tracker's `peers` field, in its compact or its dictionary form, turned
//! into a flat list of endpoints.
use vstd::prelude::*;

use crate::text::{decimal, push_char, push_decimal};

verus! {

/// A peer endpoint.
#[derive(Clone, Debug, PartialEq, Eq, PartialOrd, Ord, Hash)]
pub struct Peer {
    pub ip: String,
    pub port: u64,
}

/// One entry of the dictionary form.
#[derive(Debug, PartialEq, Eq)]
pub struct PeersDict {
    pub peer_id: Vec<u8>,
    pub ip: String,
    pub port: u64,
}

/// The two forms a tracker may send peers in.
#[derive(Debug, PartialEq, Eq)]
pub enum PeersEnum {
    Dict(Vec<PeersDict>),
    /// Six bytes per peer: an IPv4 address and a big-endian port.
    Compact(Vec<u8>),
}

/// A compact list whose length is not a multiple of six.
#[derive(Clone, Copy, Debug, PartialEq, Eq)]
pub struct MalformedPeers;

/// Dotted-decimal text of an IPv4 address.
pub open spec fn ipv4_text(a: u8, b: u8, c: u8, d: u8) -> Seq<char> {
    decimal(a as nat) + seq!['.'] + decimal(b as nat) + seq!['.'] + decimal(c as nat) + seq!['.']
        + decimal(d as nat)
}

/// The address of the `i`-th six-byte chunk of a compact list.
pub open spec fn chunk_ip(b: Seq<u8>, i: int) -> Seq<char> {
    ipv4_text(b[6 * i], b[6 * i + 1], b[6 * i + 2], b[6 * i + 3])
}

/// The port of the `i`-th six-byte chunk of a compact list.
pub open spec fn chunk_port(b: Seq<u8>, i: int) -> int {
    b[6 * i + 4] * 256 + b[6 * i + 5]
}

fn ipv4_string(a: u8, b: u8, c: u8, d: u8) -> (r: String)
    ensures
        r@ == ipv4_text(a, b, c, d),
{
    let mut s = String::new();
    push_decimal(&mut s, a as u64);
    push_char(&mut s, '.');
    push_decimal(&mut s, b as u64);
    push_char(&mut s, '.');
    push_decimal(&mut s, c as u64);
    push_char(&mut s, '.');
    push_decimal(&mut s, d as u64);
    assert(s@ =~= ipv4_text(a, b, c, d));
    s
}

impl PeersEnum {
    /// `peers` lists this field's endpoints in order: one per six-byte chunk of
    /// a compact list, one per entry of a dictionary list.
    pub open spec fn peers_of(&self, peers: Seq<Peer>) -> bool {
        match self {
            PeersEnum::Compact(b) => {
                &&& peers.len() == b@.len() / 6
                &&& forall|i: int|
                    0 <= i < peers.len() ==> (#[trigger] peers[i]).ip@ == chunk_ip(b@, i)
                        && peers[i].port == chunk_port(b@, i)
            },
            PeersEnum::Dict(d) => {
                &&& peers.len() == d@.len()
                &&& forall|i: int|
                    0 <= i < peers.len() ==> (#[trigger] peers[i]).ip@ == d@[i].ip@ && peers[i].port
                        == d@[i].port
            },
        }
    }

    /// A compact list whose length is not a multiple of six.
    pub open spec fn is_malformed(&self) -> bool {
        self matches PeersEnum::Compact(b) && b@.len() % 6 != 0
    }

    /// The endpoints in the order the tracker gave them. A compact list gives
    /// one per six-byte chunk and fails on a trailing partial chunk.
    pub fn to_peers(&self) -> (r: Result<Vec<Peer>, MalformedPeers>)
        ensures
            r is Err <==> self.is_malformed(),
            r matches Ok(peers) ==> self.peers_of(peers@),
    {
        let mut peers: Vec<Peer> = Vec::new();
        match self {
            PeersEnum::Dict(dicts) => {
                let mut i: usize = 0;
                while i < dicts.len()
                    invariant
                        i <= dicts@.len(),
                        peers@.len() == i,
                        forall|k: int|
                            0 <= k < i ==> (#[trigger] peers@[k]).ip@ == dicts@[k].ip@
                                && peers@[k].port == dicts@[k].port,
                    decreases dicts@.len() - i,
                {
                    peers.push(Peer { ip: dicts[i].ip.clone(), port: dicts[i].port });
                    i += 1;
                }
                Ok(peers)
            },
            PeersEnum::Compact(items) => {
                if items.len() % 6 != 0 {
                    return Err(MalformedPeers);
                }
                let len = items.len();
                let n = len / 6;
                let mut i: usize = 0;
                while i < n
                    invariant
                        len == items@.len(),
                        n == items@.len() / 6,
                        items@.len() % 6 == 0,
                        i <= n,
                        peers@.len() == i,
                        forall|k: int|
                            0 <= k < i ==> (#[trigger] peers@[k]).ip@ == chunk_ip(items@, k)
                                && peers@[k].port == chunk_port(items@, k),
                    decreases n - i,
                {
                    assert(6 * i + 6 <= items@.len()) by (nonlinear_arith)
                        requires
                            i < n,
                            n == items@.len() / 6,
                            items@.len() % 6 == 0,
                    ;
                    let at = 6 * i;
                    let ip = ipv4_string(items[at], items[at + 1], items[at + 2], items[at + 3]);
                    let hi = items[at + 4] as u64;
                    let lo = items[at + 5] as u64;
                    assert(hi < 256 && lo < 256);
                    let port = hi * 256 + lo;
                    peers.push(Peer { ip, port });
                    i += 1;
                }
                Ok(peers)
            },
        }
    }
}

} // verus!
