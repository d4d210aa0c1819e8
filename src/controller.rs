//! The peer pool's decision: which known peers get a new session.
use vstd::prelude::*;

use crate::peer_list::Peer;

verus! {

/// Below this many active sessions the pool starts new ones.
pub const MAX_PEERS: usize = 10;

/// Seconds between two passes of the peer pool.
pub const RECONCILE_SECS: u64 = 10;

pub open spec fn key(p: Peer) -> (Seq<char>, u64) {
    (p.ip@, p.port)
}

pub open spec fn keys(s: Seq<Peer>) -> Seq<(Seq<char>, u64)> {
    s.map_values(|p: Peer| key(p))
}

/// The endpoints among `known[0..n]` to start, in order: each one that no
/// active session has, once.
pub open spec fn to_start(known: Seq<Peer>, active: Seq<Peer>, n: int) -> Seq<(Seq<char>, u64)>
    decreases n,
{
    if n <= 0 {
        Seq::empty()
    } else {
        let k = key(known[n - 1]);
        if keys(active).contains(k) || keys(known).take(n - 1).contains(k) {
            to_start(known, active, n - 1)
        } else {
            to_start(known, active, n - 1).push(k)
        }
    }
}

fn same_peer(a: &Peer, b: &Peer) -> (r: bool)
    ensures
        r == (key(*a) == key(*b)),
{
    a.port == b.port && a.ip == b.ip
}

fn contains_peer(list: &Vec<Peer>, p: &Peer, n: usize) -> (r: bool)
    requires
        n <= list@.len(),
    ensures
        r == keys(list@).take(n as int).contains(key(*p)),
{
    let mut i: usize = 0;
    while i < n
        invariant
            n <= list@.len(),
            i <= n,
            forall|j: int| 0 <= j < i ==> key(#[trigger] list@[j]) != key(*p),
        decreases n - i,
    {
        if same_peer(&list[i], p) {
            assert(keys(list@).take(n as int)[i as int] == key(*p));
            return true;
        }
        i += 1;
    }
    assert(!keys(list@).take(n as int).contains(key(*p))) by {
        if keys(list@).take(n as int).contains(key(*p)) {
            let j = choose|j: int| 0 <= j < n && keys(list@).take(n as int)[j] == key(*p);
            assert(key(list@[j]) == key(*p));
        }
    }
    false
}

/// The peers to open sessions to: none while `MAX_PEERS` or more are active,
/// else every known peer that has no session yet, each once, in the order the
/// tracker listed them.
pub fn peers_to_start(known: &Vec<Peer>, active: &Vec<Peer>) -> (r: Vec<Peer>)
    ensures
        active@.len() >= MAX_PEERS ==> r@.len() == 0,
        active@.len() < MAX_PEERS ==> keys(r@) == to_start(known@, active@, known@.len() as int),
{
    let mut out: Vec<Peer> = Vec::new();
    if active.len() >= MAX_PEERS {
        return out;
    }
    let mut i: usize = 0;
    while i < known.len()
        invariant
            i <= known@.len(),
            keys(out@) == to_start(known@, active@, i as int),
        decreases known@.len() - i,
    {
        let p = &known[i];
        let in_active = contains_peer(active, p, active.len());
        assert(keys(active@).take(active@.len() as int) =~= keys(active@));
        let seen = contains_peer(known, p, i);
        if !in_active && !seen {
            let ghost before = out@;
            out.push(Peer { ip: p.ip.clone(), port: p.port });
            assert(keys(out@) =~= keys(before).push(key(*p)));
        }
        i += 1;
    }
    out
}

} // verus!
