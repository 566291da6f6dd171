//! The binary layout of a token's payload: the entropy, whose last byte is
//! the marker, and after it the checksum of both, most significant byte first.

use vstd::prelude::*;
use vstd::slice::*;

verus! {

/// The number of bytes that the checksum takes at the payload's end.
pub const CHECKSUM_BYTES: usize = 4;

/// The shortest payload that parses: one byte of secret, the marker and the
/// checksum.
pub const MIN_PAYLOAD_BYTES: usize = 6;

/// The four bytes of `x`, most significant first.
pub open spec fn be_bytes(x: u32) -> Seq<u8> {
    seq![
        (x / 0x100_0000) as u8,
        (x / 0x1_0000 % 0x100) as u8,
        (x / 0x100 % 0x100) as u8,
        (x % 0x100) as u8,
    ]
}

/// The entropy as it enters a payload: its last byte, the marker, is zero.
pub open spec fn marked(entropy: Seq<u8>) -> Seq<u8>
    recommends
        entropy.len() >= 1,
{
    entropy.update(entropy.len() - 1, 0u8)
}

/// The payload made of a body and the checksum behind it.
pub open spec fn sealed(body: Seq<u8>, checksum: u32) -> Seq<u8> {
    body + be_bytes(checksum)
}

/// The part of a payload that its checksum covers: all but the last four
/// bytes. A payload too short to hold a checksum covers nothing.
pub open spec fn covered(payload: Seq<u8>) -> Seq<u8> {
    if payload.len() >= CHECKSUM_BYTES {
        payload.take(payload.len() - CHECKSUM_BYTES)
    } else {
        Seq::empty()
    }
}

/// The checksum that a payload carries: its last four bytes.
pub open spec fn supplied(payload: Seq<u8>) -> Seq<u8>
    recommends
        payload.len() >= CHECKSUM_BYTES,
{
    payload.skip(payload.len() - CHECKSUM_BYTES)
}

/// A sealed payload gives back its body and its checksum.
pub proof fn lemma_sealed_parts(body: Seq<u8>, checksum: u32)
    ensures
        sealed(body, checksum).len() == body.len() + CHECKSUM_BYTES,
        covered(sealed(body, checksum)) == body,
        supplied(sealed(body, checksum)) == be_bytes(checksum),
{
    let p = sealed(body, checksum);
    assert(be_bytes(checksum).len() == 4);
    assert(covered(p) =~= body);
    assert(supplied(p) =~= be_bytes(checksum));
}

/// Returns the four bytes of `x`, most significant first.
pub fn checksum_bytes(x: u32) -> (bytes: Vec<u8>)
    ensures
        bytes@ == be_bytes(x),
{
    let mut bytes: Vec<u8> = Vec::with_capacity(4);
    bytes.push((x / 0x100_0000) as u8);
    bytes.push((x / 0x1_0000 % 0x100) as u8);
    bytes.push((x / 0x100 % 0x100) as u8);
    bytes.push((x % 0x100) as u8);
    assert(bytes@ =~= be_bytes(x));
    bytes
}

/// Writes the marker, zero, over the last byte of the entropy.
pub fn mark_entropy(entropy: &mut Vec<u8>)
    requires
        old(entropy)@.len() >= 1,
    ensures
        final(entropy)@ == marked(old(entropy)@),
{
    let last: usize = entropy.len() - 1;
    entropy[last] = 0;
}

/// Builds the payload: the body, then the checksum's four bytes.
pub fn seal_payload(body: &Vec<u8>, checksum: u32) -> (payload: Vec<u8>)
    ensures
        payload@ == sealed(body@, checksum),
{
    let mut payload: Vec<u8> = Vec::new();
    let mut i: usize = 0;
    while i < body.len()
        invariant
            i <= body.len(),
            payload@ == body@.take(i as int),
        decreases body.len() - i,
    {
        payload.push(body[i]);
        i += 1;
        assert(payload@ =~= body@.take(i as int));
    }
    assert(body@.take(body.len() as int) =~= body@);
    let sum = checksum_bytes(checksum);
    let mut j: usize = 0;
    while j < 4
        invariant
            j <= 4,
            sum@ == be_bytes(checksum),
            payload@ == body@ + sum@.take(j as int),
        decreases 4 - j,
    {
        payload.push(sum[j]);
        j += 1;
        assert(payload@ =~= body@ + sum@.take(j as int));
    }
    assert(sum@.take(4) =~= sum@);
    payload
}

/// Returns the part of a payload that its checksum covers.
pub fn covered_part(payload: &[u8]) -> (part: &[u8])
    ensures
        part@ == covered(payload@),
{
    let n: usize = payload.len();
    if n >= CHECKSUM_BYTES {
        let part = slice_subrange(payload, 0, n - CHECKSUM_BYTES);
        assert(part@ =~= covered(payload@));
        part
    } else {
        let part = slice_subrange(payload, 0, 0);
        assert(part@ =~= covered(payload@));
        part
    }
}

/// Returns a buffer of `n` zero bytes.
pub fn zeroed(n: usize) -> (buf: Vec<u8>)
    ensures
        buf@.len() == n,
        forall|i: int| 0 <= i < n ==> buf@[i] == 0,
{
    let mut buf: Vec<u8> = Vec::new();
    let mut i: usize = 0;
    while i < n
        invariant
            i <= n,
            buf@.len() == i,
            forall|k: int| 0 <= k < i ==> buf@[k] == 0,
        decreases n - i,
    {
        buf.push(0);
        i += 1;
    }
    buf
}

/// Tells whether two byte strings are the same.
pub fn same_bytes(a: &[u8], b: &[u8]) -> (same: bool)
    ensures
        same == (a@ == b@),
{
    if a.len() != b.len() {
        return false;
    }
    let mut i: usize = 0;
    while i < a.len()
        invariant
            i <= a.len(),
            a@.len() == b@.len(),
            a@.take(i as int) == b@.take(i as int),
        decreases a.len() - i,
    {
        if a[i] != b[i] {
            return false;
        }
        i += 1;
        assert(a@.take(i as int) =~= a@.take(i - 1).push(a@[i - 1]));
        assert(b@.take(i as int) =~= b@.take(i - 1).push(b@[i - 1]));
    }
    assert(a@.take(a@.len() as int) =~= a@);
    assert(b@.take(b@.len() as int) =~= b@);
    true
}

} // verus!
