//! The calls into other crates. Nothing in this module is proved: each
//! contract states what the called function's source shows.

use rand::RngCore;
use vstd::prelude::*;

verus! {

/// The CRC32 (IEEE) checksum that `crc32fast::hash` computes of `bytes`.
pub uninterp spec fn crc32_checksum(bytes: Seq<u8>) -> u32;

/// The text that `base_x::encode` gives for `input` under `alphabet`.
pub uninterp spec fn base_x_encoding(alphabet: Seq<char>, input: Seq<u8>) -> Seq<char>;

/// The bytes that `base_x::decode` gives for `input` under `alphabet`, where
/// it succeeds.
pub uninterp spec fn base_x_decoded(alphabet: Seq<char>, input: Seq<char>) -> Seq<u8>;

/// The error of `base_x::decode`. It carries no data.
#[verifier::external_type_specification]
#[verifier::external_body]
pub struct ExDecodeError(base_x::DecodeError);

/// The alphabets for which the contracts below are stated: between 2 and 255
/// ASCII characters, none of them twice.
pub open spec fn plain_alphabet(alphabet: Seq<char>) -> bool {
    &&& 2 <= alphabet.len() <= 255
    &&& forall|i: int| 0 <= i < alphabet.len() ==> (#[trigger] alphabet[i] as u32) < 128
    &&& forall|i: int, j: int|
        0 <= i < j < alphabet.len() ==> #[trigger] alphabet[i] != #[trigger] alphabet[j]
}

/// Whether each character of `text` is one of `alphabet`.
pub open spec fn within_alphabet(alphabet: Seq<char>, text: Seq<char>) -> bool {
    forall|i: int| 0 <= i < text.len() ==> alphabet.contains(#[trigger] text[i])
}

/// `crc32fast::hash`: the CRC32 checksum of a byte slice. The result depends
/// on the bytes alone, whichever implementation the crate picks at run time.
#[verifier::external_body]
pub(crate) fn crc32(bytes: &[u8]) -> (sum: u32)
    ensures
        sum == crc32_checksum(bytes@),
{
    crc32fast::hash(bytes)
}

/// `base_x::encode` with a `&str` alphabet of ASCII characters.
///
/// The encoder reads `input` as one big-endian number and writes it in the
/// base of the alphabet's length, most significant digit first and at least
/// one digit; in front it puts the alphabet's first character once for each
/// zero byte that leads `input`, its last byte not counted. An empty input
/// gives the empty text. The decoder reads the number back, writes it in the
/// fewest bytes (none for zero), and puts a zero byte in front for each first
/// character that leads the text.
///
/// Claimed here: the text depends on the two arguments alone, each character
/// of it comes from the alphabet, and `base_x::decode` under the same
/// alphabet gives `input` back.
#[verifier::external_body]
pub(crate) fn base_x_encode(alphabet: &str, input: &[u8]) -> (text: String)
    requires
        plain_alphabet(alphabet@),
    ensures
        text@ == base_x_encoding(alphabet@, input@),
        within_alphabet(alphabet@, text@),
        base_x_decoded(alphabet@, text@) == input@,
{
    base_x::encode(alphabet, input)
}

/// `base_x::decode` with a `&str` alphabet of ASCII characters.
///
/// The decoder looks each byte of `input` up in the alphabet and fails at
/// the first that is not in it; a character that is not ASCII has no byte in
/// an ASCII alphabet. Claimed here: it succeeds exactly when every character
/// of `input` is one of the alphabet, the empty text included, and the bytes
/// then depend on the two arguments alone.
#[verifier::external_body]
pub(crate) fn base_x_decode(alphabet: &str, input: &str) -> (decoded: Result<
    Vec<u8>,
    base_x::DecodeError,
>)
    requires
        plain_alphabet(alphabet@),
    ensures
        decoded is Ok <==> within_alphabet(alphabet@, input@),
        decoded matches Ok(bytes) ==> bytes@ == base_x_decoded(alphabet@, input@),
{
    base_x::decode(alphabet, input)
}

/// `RngCore::fill_bytes` on the generator that `rand::thread_rng` hands
/// out: overwrites the buffer with random bytes. Claimed here: the buffer
/// keeps its length. Nothing is said of the bytes.
#[verifier::external_body]
pub(crate) fn fill_random(buf: &mut Vec<u8>)
    ensures
        final(buf)@.len() == old(buf)@.len(),
{
    rand::thread_rng().fill_bytes(buf.as_mut_slice())
}

} // verus!
