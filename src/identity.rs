//! This client's peer id: an 8-byte client prefix and 12 random letters and
//! digits, drawn once per process.
use vstd::prelude::*;

use crate::tracker::{encode_binary, percent_encoded};

verus! {

/// `-RS0001-`
pub open spec fn client_prefix() -> Seq<u8> {
    seq![45u8, 82, 83, 48, 48, 48, 49, 45]
}

pub open spec fn is_alphanumeric(b: u8) -> bool {
    (48 <= b <= 57) || (65 <= b <= 90) || (97 <= b <= 122)
}

/// Relies on rand's `Alphanumeric` distribution over the thread generator:
/// twelve bytes, each one of `A-Z`, `a-z`, `0-9`.
#[verifier::external_body]
fn random_alphanumeric() -> (r: Vec<u8>)
    ensures
        r@.len() == 12,
        forall|i: int| 0 <= i < 12 ==> is_alphanumeric(#[trigger] r@[i]),
{
    rand::Rng::sample_iter(rand::rng(), rand::distr::Alphanumeric).take(12).collect()
}

/// The peer id with the client prefix and the given random part.
pub fn peer_id_from(random: &[u8]) -> (r: [u8; 20])
    requires
        random@.len() == 12,
    ensures
        r@ == client_prefix() + random@,
{
    let mut id = [45u8, 82, 83, 48, 48, 48, 49, 45, 0, 0, 0, 0, 0, 0, 0, 0, 0, 0, 0, 0];
    let mut i: usize = 0;
    while i < 12
        invariant
            i <= 12,
            random@.len() == 12,
            id@.len() == 20,
            id@.subrange(0, 8) == client_prefix(),
            forall|k: int| 0 <= k < i ==> id@[8 + k] == random@[k],
        decreases 12 - i,
    {
        id.set(8 + i, random[i]);
        i += 1;
    }
    assert(id@ =~= client_prefix() + random@);
    id
}

/// A fresh peer id for this process.
pub fn generate_peer_id() -> (r: [u8; 20])
    ensures
        r@.subrange(0, 8) == client_prefix(),
        forall|i: int| 8 <= i < 20 ==> is_alphanumeric(#[trigger] r@[i]),
{
    let random = random_alphanumeric();
    let id = peer_id_from(random.as_slice());
    assert(id@.subrange(0, 8) =~= client_prefix());
    assert forall|i: int| 8 <= i < 20 implies is_alphanumeric(#[trigger] id@[i]) by {
        assert(id@[i] == random@[i - 8]);
    }
    id
}

/// The peer id as trackers receive it, percent-encoded.
pub fn peer_id_text(id: &[u8; 20]) -> (r: String)
    ensures
        r@ == percent_encoded(id@),
{
    encode_binary(id.as_slice())
}

} // verus!
