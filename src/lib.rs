//! Download core of a BitTorrent client: the peer wire codec, piece and block
//! bookkeeping, peer state, tracker announces and piece verification.
pub mod bencode;
pub mod controller;
pub mod digest;
pub mod files;
pub mod identity;
pub mod message;
pub mod metainfo;
pub mod nav;
pub mod peer;
pub mod peer_list;
pub mod pieces;
pub mod text;
pub mod torrent;
pub mod tracker;
pub mod work;
