//! Short identifiers for incidents, chains and decisions.
//!
//! An identifier is 16 lower-case hex digits: the first 8 bytes of the
//! BLAKE3 hash of a seed made of a wall-clock reading in nanoseconds and a
//! process-wide counter, both little-endian. The clock and the counter are
//! the daemon's; this module turns a seed into the identifier.

use vstd::prelude::*;
use crate::signature::{blake3_digest, blake3_hash};
use crate::text::{hex_lower, hex_of, is_hex_digit, string_from};

verus! {

/// The `k` low bytes of `n`, least significant first (`u64::to_le_bytes`
/// for `k == 8`).
pub open spec fn le_bytes(n: nat, k: nat) -> Seq<u8>
    decreases k,
{
    if k == 0 {
        Seq::empty()
    } else {
        seq![(n % 256) as u8] + le_bytes(n / 256, (k - 1) as nat)
    }
}

/// The identifier for a seed.
pub open spec fn spec_id_from_seed(now_nanos: u64, counter: u64) -> Seq<char> {
    hex_lower(blake3_hash(le_bytes(now_nanos as nat, 8) + le_bytes(counter as nat, 8)).take(8))
}

fn push_le_bytes(out: &mut Vec<u8>, n: u64)
    ensures
        final(out)@ == old(out)@ + le_bytes(n as nat, 8),
{
    let mut x = n;
    let mut i: usize = 0;
    while i < 8
        invariant
            0 <= i <= 8,
            out@ + le_bytes(x as nat, (8 - i) as nat) == old(out)@ + le_bytes(n as nat, 8),
        decreases 8 - i,
    {
        let ghost before = out@;
        out.push((x % 256) as u8);
        proof {
            let k = (8 - i - 1) as nat;
            assert(le_bytes(x as nat, (k + 1) as nat) == seq![(x % 256) as u8] + le_bytes(
                (x / 256) as nat,
                k,
            ));
            assert(before + (seq![(x % 256) as u8] + le_bytes((x / 256) as nat, k)) =~= out@
                + le_bytes((x / 256) as nat, k));
        }
        x = x / 256;
        i += 1;
    }
    assert(le_bytes(x as nat, 0) =~= Seq::<u8>::empty());
    assert(out@ + Seq::<u8>::empty() =~= out@);
}

/// The 16-hex-digit identifier for a clock reading and a counter value.
pub fn short_uuid_from_seed(now_nanos: u64, counter: u64) -> (id: String)
    ensures
        id@ == spec_id_from_seed(now_nanos, counter),
        id@.len() == 16,
        forall|i: int| 0 <= i < id@.len() ==> is_hex_digit(#[trigger] id@[i]),
{
    let mut seed: Vec<u8> = Vec::new();
    push_le_bytes(&mut seed, now_nanos);
    push_le_bytes(&mut seed, counter);
    assert(seed@ =~= le_bytes(now_nanos as nat, 8) + le_bytes(counter as nat, 8));
    let digest = blake3_digest(seed.as_slice());
    let mut first: Vec<u8> = Vec::new();
    let mut i: usize = 0;
    while i < 8
        invariant
            0 <= i <= 8,
            digest@.len() == 32,
            first@ == digest@.take(i as int),
        decreases 8 - i,
    {
        first.push(digest[i]);
        i += 1;
        assert(first@ =~= digest@.take(i as int));
    }
    let v = hex_of(first.as_slice());
    string_from(v.as_slice())
}

} // verus!
