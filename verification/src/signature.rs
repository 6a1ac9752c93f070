//! Structural log-signature hashing.
//!
//! A signature is the hash of a log line with high-cardinality tokens
//! (timestamps, UUIDs, IP addresses, hex ids, durations, numbers) masked
//! out. Two messages that differ only in those tokens collapse to the same
//! signature and can be deduplicated into a single metric event.

use vstd::prelude::*;
use crate::pattern::{regex_replace_all, replace_all};
use crate::text::{hex_lower, hex_of, is_hex_digit, string_from};

verus! {

/// A 128-bit structural signature: the first 16 bytes of the BLAKE3 hash
/// of the masked line.
#[derive(Clone, Copy, PartialEq, Eq, Hash, Debug)]
pub struct Signature(pub [u8; 16]);

/// The BLAKE3 hash of `input` (32 bytes), as `blake3::hash` computes it.
pub uninterp spec fn blake3_hash(input: Seq<u8>) -> Seq<u8>;

/// Calls `blake3::hash`; the contract names its result. The output length
/// is the crate's `OUT_LEN`, 32, which the array type already states.
#[verifier::external_body]
pub(crate) fn blake3_digest(input: &[u8]) -> (r: [u8; 32])
    ensures
        r@ == blake3_hash(input@),
{
    *blake3::hash(input).as_bytes()
}

pub const MASK_TIMESTAMP: &'static str =
    r"\d{4}-\d{2}-\d{2}[T ]\d{2}:\d{2}:\d{2}(?:\.\d+)?(?:Z|[+-]\d{2}:?\d{2})?";

pub const MASK_UUID: &'static str =
    r"\b[0-9a-fA-F]{8}-[0-9a-fA-F]{4}-[0-9a-fA-F]{4}-[0-9a-fA-F]{4}-[0-9a-fA-F]{12}\b";

pub const MASK_IPV4: &'static str = r"\b\d{1,3}\.\d{1,3}\.\d{1,3}\.\d{1,3}\b";

pub const MASK_HEX: &'static str = r"\b[0-9a-fA-F]{8,}\b";

pub const MASK_DURATION: &'static str = r"\b\d+(?:\.\d+)?(?:ns|us|ms|s|m|h)\b";

pub const MASK_NUMBER: &'static str = r"\b\d+(?:\.\d+)?\b";

/// One masking pass: every match of `pattern` replaced by `replacement`
/// (the text is left as it is should the pattern not compile).
pub open spec fn mask_pass(s: Seq<char>, pattern: Seq<char>, replacement: Seq<char>) -> Seq<char> {
    match regex_replace_all(pattern, s, replacement) {
        Some(t) => t,
        None => s,
    }
}

/// The six passes, in order: timestamps, UUIDs, IPv4 addresses, hex blobs,
/// durations, and bare numbers last so that they do not eat the others.
pub open spec fn spec_mask(line: Seq<char>) -> Seq<char> {
    let a = mask_pass(line, MASK_TIMESTAMP@, "<TS>"@);
    let b = mask_pass(a, MASK_UUID@, "<UUID>"@);
    let c = mask_pass(b, MASK_IPV4@, "<IP>"@);
    let d = mask_pass(c, MASK_HEX@, "<HEX>"@);
    let e = mask_pass(d, MASK_DURATION@, "<DUR>"@);
    mask_pass(e, MASK_NUMBER@, "<N>"@)
}

/// UTF-8 encoding of a character sequence (what `str::as_bytes` gives).
pub open spec fn utf8(s: Seq<char>) -> Seq<u8> {
    vstd::utf8::encode_utf8(s)
}

/// The signature of a line: the first 16 bytes of the hash of its mask.
pub open spec fn spec_compute(line: Seq<char>) -> Seq<u8> {
    blake3_hash(utf8(spec_mask(line))).take(16)
}

fn mask_once(s: String, pattern: &str, replacement: &str) -> (r: String)
    ensures
        r@ == mask_pass(s@, pattern@, replacement@),
{
    match replace_all(pattern, s.as_str(), replacement) {
        Some(t) => t,
        None => s,
    }
}

/// Mask high-cardinality tokens out of a log line so that two structurally
/// identical messages collapse to the same string before hashing.
pub fn mask(line: &str) -> (r: String)
    ensures
        r@ == spec_mask(line@),
{
    let out = line.to_owned();
    let out = mask_once(out, MASK_TIMESTAMP, "<TS>");
    let out = mask_once(out, MASK_UUID, "<UUID>");
    let out = mask_once(out, MASK_IPV4, "<IP>");
    let out = mask_once(out, MASK_HEX, "<HEX>");
    let out = mask_once(out, MASK_DURATION, "<DUR>");
    mask_once(out, MASK_NUMBER, "<N>")
}

/// Compute the 128-bit structural signature of a log line.
pub fn compute(line: &str) -> (sig: Signature)
    ensures
        sig.0@ == spec_compute(line@),
{
    let masked = mask(line);
    let digest = blake3_digest(masked.as_str().as_bytes());
    let mut out = [0u8; 16];
    let mut i: usize = 0;
    while i < 16
        invariant
            0 <= i <= 16,
            digest@ == blake3_hash(utf8(spec_mask(line@))),
            digest@.len() == 32,
            out@.len() == 16,
            forall|j: int| 0 <= j < i ==> out@[j] == digest@[j],
        decreases 16 - i,
    {
        out[i] = digest[i];
        i += 1;
    }
    proof {
        assert(out@ =~= digest@.take(16));
    }
    Signature(out)
}

impl Signature {
    /// The signature as 32 lower-case hex digits (what `Display` prints).
    pub fn to_hex(&self) -> (r: String)
        ensures
            r@ == hex_lower(self.0@),
            r@.len() == 32,
            forall|i: int| 0 <= i < r@.len() ==> is_hex_digit(#[trigger] r@[i]),
    {
        let v = hex_of(self.0.as_slice());
        string_from(v.as_slice())
    }

    /// Byte-wise equality of two signatures.
    pub fn same(&self, other: &Signature) -> (b: bool)
        ensures
            b == (self.0@ == other.0@),
    {
        let mut i: usize = 0;
        while i < 16
            invariant
                0 <= i <= 16,
                self.0@.len() == 16,
                other.0@.len() == 16,
                forall|j: int| 0 <= j < i ==> self.0@[j] == other.0@[j],
            decreases 16 - i,
        {
            if self.0[i] != other.0[i] {
                return false;
            }
            i += 1;
        }
        proof {
            assert(self.0@ =~= other.0@);
        }
        true
    }
}

/// Two lines that differ only in masked tokens (timestamps, ids, addresses,
/// durations, numbers) share a signature.
pub proof fn law_same_mask_same_signature(a: Seq<char>, b: Seq<char>)
    requires
        spec_mask(a) == spec_mask(b),
    ensures
        spec_compute(a) == spec_compute(b),
{
}

} // verus!
