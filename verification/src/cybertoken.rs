use crate::error::CybertokenError;
use crate::outside::{
    base_x_decode, base_x_decoded, base_x_encode, base_x_encoding, crc32, crc32_checksum,
    fill_random, plain_alphabet, within_alphabet,
};
use crate::payload::{
    be_bytes, checksum_bytes, covered, covered_part, lemma_sealed_parts, mark_entropy, marked,
    same_bytes, seal_payload, sealed, supplied, zeroed, MIN_PAYLOAD_BYTES,
};
use vstd::prelude::*;
use vstd::slice::*;
use vstd::string::*;

verus! {

/// The base-62 digits in the order of their values.
pub const BASE62_ALPHABET: &'static str =
    "0123456789ABCDEFGHIJKLMNOPQRSTUVWXYZabcdefghijklmnopqrstuvwxyz";

/// The character between a token's prefix and its payload.
pub const DELIMITER: char = '_';

/// The contents of a cybertoken
#[derive(Debug, Clone, PartialEq, Eq, PartialOrd, Ord)]
pub struct CybertokenContents<'a> {
    pub prefix_without_underscore: &'a str,
    pub secret: Vec<u8>,
    pub version: usize,
    pub supplied_checksum: Vec<u8>,
    pub actual_checksum: Vec<u8>,
    pub is_syntactically_valid: bool,
}

/// What a [`CybertokenContents`] holds, as mathematical values.
pub struct ContentsModel {
    pub prefix: Seq<char>,
    pub secret: Seq<u8>,
    pub version: int,
    pub supplied_checksum: Seq<u8>,
    pub actual_checksum: Seq<u8>,
    pub is_syntactically_valid: bool,
}

impl<'a> View for CybertokenContents<'a> {
    type V = ContentsModel;

    open spec fn view(&self) -> ContentsModel {
        ContentsModel {
            prefix: self.prefix_without_underscore@,
            secret: self.secret@,
            version: self.version as int,
            supplied_checksum: self.supplied_checksum@,
            actual_checksum: self.actual_checksum@,
            is_syntactically_valid: self.is_syntactically_valid,
        }
    }
}

/// A helper struct to persist a cybertoken configuration
#[derive(Debug, Clone, Copy)]
pub struct Cybertoken<'a> {
    pub prefix: &'a str,
    pub version: u8,
    pub entropy_bytes: usize,
}

/// The view of [`BASE62_ALPHABET`].
pub open spec fn base62_alphabet() -> Seq<char> {
    "0123456789ABCDEFGHIJKLMNOPQRSTUVWXYZabcdefghijklmnopqrstuvwxyz"@
}

/// Whether the first delimiter of `token` stands at `d`.
pub open spec fn delimiter_at(token: Seq<char>, d: int) -> bool {
    &&& 0 <= d < token.len()
    &&& token[d] == DELIMITER
    &&& forall|j: int| 0 <= j < d ==> token[j] != DELIMITER
}

/// Where the first delimiter of `token` stands, if it has one.
pub open spec fn delimiter_index(token: Seq<char>) -> int {
    choose|d: int| delimiter_at(token, d)
}

/// The text before the first delimiter.
pub open spec fn prefix_of(token: Seq<char>) -> Seq<char> {
    token.take(delimiter_index(token))
}

/// The text after the first delimiter.
pub open spec fn body_of(token: Seq<char>) -> Seq<char> {
    token.skip(delimiter_index(token) + 1)
}

/// What a decoded payload holds, given the checksum computed of the part that
/// its own checksum covers.
pub open spec fn payload_contents(
    version: u8,
    prefix: Seq<char>,
    payload: Seq<u8>,
    actual: u32,
) -> Result<ContentsModel, CybertokenError> {
    let n = payload.len() as int;
    if n < MIN_PAYLOAD_BYTES {
        Err(CybertokenError::TokenLength)
    } else if payload[n - 5] != version {
        Err(CybertokenError::VersionMismatch)
    } else {
        Ok(
            ContentsModel {
                prefix,
                secret: payload.take(n - 5),
                version: payload[n - 5] as int,
                supplied_checksum: supplied(payload),
                actual_checksum: be_bytes(actual),
                is_syntactically_valid: n - 5 > 0 && supplied(payload) == be_bytes(actual),
            },
        )
    }
}

/// What parsing `token` gives under a configuration with `version`.
pub open spec fn parsed(version: u8, token: Seq<char>) -> Result<ContentsModel, CybertokenError> {
    if !token.contains(DELIMITER) {
        Err(CybertokenError::IncludesUnderscore)
    } else if !within_alphabet(base62_alphabet(), body_of(token)) {
        Err(CybertokenError::Base62DecodingError)
    } else {
        let payload = base_x_decoded(base62_alphabet(), body_of(token));
        payload_contents(version, prefix_of(token), payload, crc32_checksum(covered(payload)))
    }
}

/// The result of a parse, as mathematical values.
pub open spec fn outcome(r: Result<CybertokenContents, CybertokenError>) -> Result<
    ContentsModel,
    CybertokenError,
> {
    match r {
        Ok(contents) => Ok(contents@),
        Err(e) => Err(e),
    }
}

/// The payload of the token made from `entropy`: the entropy with its last
/// byte zeroed, then the checksum of that.
pub open spec fn token_payload(entropy: Seq<u8>) -> Seq<u8> {
    sealed(marked(entropy), crc32_checksum(marked(entropy)))
}

/// The token made from `prefix` and `entropy`.
pub open spec fn token_text(prefix: Seq<char>, entropy: Seq<u8>) -> Seq<char> {
    prefix + seq![DELIMITER] + base_x_encoding(base62_alphabet(), token_payload(entropy))
}

/// What parsing the token made from `prefix` and `entropy` gives back.
pub open spec fn written_contents(prefix: Seq<char>, entropy: Seq<u8>) -> ContentsModel {
    ContentsModel {
        prefix,
        secret: entropy.take(entropy.len() - 1),
        version: 0,
        supplied_checksum: be_bytes(crc32_checksum(marked(entropy))),
        actual_checksum: be_bytes(crc32_checksum(marked(entropy))),
        is_syntactically_valid: true,
    }
}

/// The base-62 alphabet is one that the encoder and the decoder take.
pub proof fn lemma_alphabet_is_plain()
    ensures
        plain_alphabet(base62_alphabet()),
{
    reveal_strlit("0123456789ABCDEFGHIJKLMNOPQRSTUVWXYZabcdefghijklmnopqrstuvwxyz");
}

/// A token has one first delimiter at most.
pub proof fn lemma_delimiter_unique(token: Seq<char>, d: int)
    requires
        delimiter_at(token, d),
    ensures
        token.contains(DELIMITER),
        delimiter_index(token) == d,
{
    let e = delimiter_index(token);
    assert(delimiter_at(token, e));
    if e < d {
        assert(token[e] != DELIMITER);
    }
    if d < e {
        assert(token[d] != DELIMITER);
    }
}

/// Finds the first delimiter of `token`, counted in characters.
pub fn find_delimiter(token: &str) -> (found: Option<usize>)
    ensures
        match found {
            Some(d) => delimiter_at(token@, d as int),
            None => !token@.contains(DELIMITER),
        },
{
    let len: usize = token.unicode_len();
    let mut i: usize = 0;
    for c in chars: token.chars()
        invariant
            i == chars.index(),
            chars.seq() == token@,
            len == token@.len(),
            forall|j: int| 0 <= j < i ==> token@[j] != DELIMITER,
    {
        if c == DELIMITER {
            return Some(i);
        }
        i += 1;
    }
    None
}

/// Splits a token at its first delimiter into the prefix before it and the
/// body behind it.
pub fn split_token<'t>(token: &'t str) -> (parts: Option<(&'t str, &'t str)>)
    ensures
        match parts {
            Some((prefix, body)) => {
                &&& token@.contains(DELIMITER)
                &&& prefix@ == prefix_of(token@)
                &&& body@ == body_of(token@)
            },
            None => !token@.contains(DELIMITER),
        },
{
    let delimiter = match find_delimiter(token) {
        Some(i) => i,
        None => return None,
    };
    let len: usize = token.unicode_len();
    let prefix = token.substring_char(0, delimiter);
    let body = token.substring_char(delimiter + 1, len);
    proof {
        lemma_delimiter_unique(token@, delimiter as int);
        assert(prefix@ =~= prefix_of(token@));
        assert(body@ =~= body_of(token@));
    }
    Some((prefix, body))
}

/// Puts a token together: the prefix, the delimiter, the body.
pub fn join_token(prefix: &str, body: &str) -> (token: String)
    ensures
        token@ == prefix@ + seq![DELIMITER] + body@,
{
    let mut token = String::from_str(prefix);
    token.append("_");
    token.append(body);
    proof {
        reveal_strlit("_");
        assert("_"@ =~= seq![DELIMITER]);
    }
    token
}

impl<'a> Cybertoken<'a> {
    /// A configuration with the given prefix, version 0 and 23 bytes of
    /// entropy.
    pub fn new(prefix: &'a str) -> (config: Self)
        ensures
            config.prefix == prefix,
            config.version == 0,
            config.entropy_bytes == 23,
    {
        Self { prefix, version: 0, entropy_bytes: 23 }
    }

    /// Generates a token from fresh random entropy.
    ///
    /// The marker byte written is always zero, whatever `version` the
    /// configuration holds, so the token parses under this configuration
    /// only where its version is 0. It also needs a prefix without a
    /// delimiter and at least one byte of secret before the marker.
    pub fn generate_token(&self) -> (token: String)
        requires
            self.entropy_bytes >= 1,
        ensures
            exists|entropy: Seq<u8>|
                entropy.len() == self.entropy_bytes && token@ == #[trigger] token_text(
                    self.prefix@,
                    entropy,
                ),
            self.entropy_bytes >= 2 && self.version == 0 && !self.prefix@.contains(DELIMITER)
                ==> (parsed(self.version, token@) matches Ok(contents)
                && contents.is_syntactically_valid
                && contents.prefix == self.prefix@
                && contents.version == 0
                && contents.secret.len() == self.entropy_bytes - 1),
    {
        let mut entropy = zeroed(self.entropy_bytes);
        fill_random(&mut entropy);
        self.token_from_entropy(entropy)
    }

    /// Makes the token that carries the given entropy: its last byte is
    /// overwritten with the marker, zero, and the CRC32 checksum of the
    /// result is put behind it.
    pub fn token_from_entropy(&self, entropy: Vec<u8>) -> (token: String)
        requires
            entropy@.len() >= 1,
        ensures
            token@ == token_text(self.prefix@, entropy@),
            entropy@.len() >= 2 && self.version == 0 && !self.prefix@.contains(DELIMITER)
                ==> parsed(self.version, token@) == Ok::<ContentsModel, CybertokenError>(
                written_contents(self.prefix@, entropy@),
            ),
    {
        let ghost given = entropy@;
        let mut body = entropy;
        mark_entropy(&mut body);
        let checksum = crc32(body.as_slice());
        let payload = seal_payload(&body, checksum);
        proof {
            lemma_alphabet_is_plain();
        }
        let encoded = base_x_encode(BASE62_ALPHABET, payload.as_slice());
        let token = join_token(self.prefix, encoded.as_str());
        proof {
            if given.len() >= 2 && self.version == 0 && !self.prefix@.contains(DELIMITER) {
                lemma_written_token_parses(self.version, self.prefix@, given, encoded@);
            }
        }
        token
    }

    /// Parses a token: the prefix before the first delimiter, and behind it
    /// the base-62 payload with secret, marker byte and checksum.
    ///
    /// A checksum that does not match is no error: the contents then say
    /// that the token is not valid.
    pub fn parse_token_data(&self, token: &'a str) -> (contents: Result<
        CybertokenContents<'a>,
        CybertokenError,
    >)
        ensures
            outcome(contents) == parsed(self.version, token@),
    {
        let (prefix, body) = match split_token(token) {
            Some(parts) => parts,
            None => return Err(CybertokenError::IncludesUnderscore),
        };
        proof {
            lemma_alphabet_is_plain();
        }
        let payload = match base_x_decode(BASE62_ALPHABET, body) {
            Ok(bytes) => bytes,
            Err(_) => return Err(CybertokenError::Base62DecodingError),
        };
        let actual = crc32(covered_part(payload.as_slice()));
        self.contents_from_payload(prefix, &payload, actual)
    }

    /// Reads a decoded payload, given the checksum `actual` computed of the
    /// part that the payload's own checksum covers.
    pub fn contents_from_payload(&self, prefix: &'a str, payload: &Vec<u8>, actual: u32) -> (contents:
        Result<CybertokenContents<'a>, CybertokenError>)
        ensures
            outcome(contents) == payload_contents(self.version, prefix@, payload@, actual),
    {
        let n: usize = payload.len();
        if n < MIN_PAYLOAD_BYTES {
            return Err(CybertokenError::TokenLength);
        }
        let version: u8 = payload[n - 5];
        if version != self.version {
            return Err(CybertokenError::VersionMismatch);
        }
        let secret = slice_to_vec(slice_subrange(payload.as_slice(), 0, n - 5));
        let supplied_checksum = slice_to_vec(slice_subrange(payload.as_slice(), n - 4, n));
        let actual_checksum = checksum_bytes(actual);
        let matches = same_bytes(supplied_checksum.as_slice(), actual_checksum.as_slice());
        let is_syntactically_valid = secret.len() > 0 && matches;
        assert(secret@ =~= payload@.take(n - 5));
        assert(supplied_checksum@ =~= supplied(payload@));
        Ok(
            CybertokenContents {
                prefix_without_underscore: prefix,
                secret,
                version: version as usize,
                supplied_checksum,
                actual_checksum,
                is_syntactically_valid,
            },
        )
    }

    /// Tells whether `token` parses under this configuration and its
    /// checksum matches.
    pub fn is_token_string(&self, token: &str) -> (valid: bool)
        ensures
            valid == (parsed(self.version, token@) matches Ok(contents)
                && contents.is_syntactically_valid),
    {
        match self.parse_token_data(token) {
            Ok(token_data) => token_data.is_syntactically_valid,
            Err(_) => false,
        }
    }
}

/// A generated token parses: where the prefix holds no delimiter, the
/// version is 0 and the entropy has a byte of secret before its marker, any
/// text of base-62 digits that decodes to the entropy's payload parses
/// behind that prefix to the secret, the marker 0 and a matching checksum.
pub proof fn lemma_written_token_parses(
    version: u8,
    prefix: Seq<char>,
    entropy: Seq<u8>,
    encoded: Seq<char>,
)
    requires
        version == 0,
        !prefix.contains(DELIMITER),
        entropy.len() >= 2,
        within_alphabet(base62_alphabet(), encoded),
        base_x_decoded(base62_alphabet(), encoded) == token_payload(entropy),
    ensures
        parsed(version, prefix + seq![DELIMITER] + encoded) == Ok::<ContentsModel, CybertokenError>(
            written_contents(prefix, entropy),
        ),
{
    lemma_split_at_delimiter(prefix, encoded);
    let body = marked(entropy);
    let checksum = crc32_checksum(body);
    let payload = token_payload(entropy);
    lemma_sealed_parts(body, checksum);
    assert(payload[payload.len() - 5] == body[body.len() - 1]);
    assert(payload.take(payload.len() - 5) =~= entropy.take(entropy.len() - 1));
}

/// Parsing is a function of the version and the token: two parses of one
/// token under one version give equal results, field by field, or the same
/// error.
pub proof fn lemma_parse_is_repeatable(
    version: u8,
    token: Seq<char>,
    first: Result<CybertokenContents, CybertokenError>,
    second: Result<CybertokenContents, CybertokenError>,
)
    requires
        outcome(first) == parsed(version, token),
        outcome(second) == parsed(version, token),
    ensures
        outcome(first) == outcome(second),
        first is Ok <==> second is Ok,
        first is Ok ==> first->Ok_0@ == second->Ok_0@,
        first is Err ==> first->Err_0 == second->Err_0,
{
}

/// A token without a delimiter is refused as such, whatever else it holds.
pub proof fn lemma_missing_delimiter_is_refused(version: u8, token: Seq<char>)
    requires
        !token.contains(DELIMITER),
    ensures
        parsed(version, token) == Err::<ContentsModel, CybertokenError>(
            CybertokenError::IncludesUnderscore,
        ),
{
}

/// Text behind the first delimiter that holds anything but base-62 digits is
/// refused as undecodable.
pub proof fn lemma_foreign_character_is_refused(
    version: u8,
    prefix: Seq<char>,
    body: Seq<char>,
)
    requires
        !prefix.contains(DELIMITER),
        !within_alphabet(base62_alphabet(), body),
    ensures
        parsed(version, prefix + seq![DELIMITER] + body) == Err::<ContentsModel, CybertokenError>(
            CybertokenError::Base62DecodingError,
        ),
{
    lemma_split_at_delimiter(prefix, body);
}

/// Base-62 text that decodes to fewer than six bytes is refused for its
/// length, behind any prefix and under any version.
pub proof fn lemma_short_payload_is_refused(version: u8, prefix: Seq<char>, body: Seq<char>)
    requires
        !prefix.contains(DELIMITER),
        within_alphabet(base62_alphabet(), body),
        base_x_decoded(base62_alphabet(), body).len() < MIN_PAYLOAD_BYTES,
    ensures
        parsed(version, prefix + seq![DELIMITER] + body) == Err::<ContentsModel, CybertokenError>(
            CybertokenError::TokenLength,
        ),
{
    lemma_split_at_delimiter(prefix, body);
}

/// A payload of six bytes or more whose marker byte is not the version is
/// refused, whatever its checksum.
pub proof fn lemma_other_version_is_refused(
    version: u8,
    prefix: Seq<char>,
    payload: Seq<u8>,
    actual: u32,
)
    requires
        payload.len() >= MIN_PAYLOAD_BYTES,
        payload[payload.len() - 5] != version,
    ensures
        payload_contents(version, prefix, payload, actual) == Err::<
            ContentsModel,
            CybertokenError,
        >(CybertokenError::VersionMismatch),
{
}

/// A checksum that does not match is no error: a payload of six bytes or
/// more with the right marker byte always gives contents, and they are valid
/// exactly when the four bytes it carries are those of the computed checksum.
pub proof fn lemma_mismatch_is_not_an_error(
    version: u8,
    prefix: Seq<char>,
    payload: Seq<u8>,
    actual: u32,
)
    requires
        payload.len() >= MIN_PAYLOAD_BYTES,
        payload[payload.len() - 5] == version,
    ensures
        payload_contents(version, prefix, payload, actual) matches Ok(contents)
            && (contents.is_syntactically_valid <==> supplied(payload) == be_bytes(actual)),
{
}

/// Behind a prefix without a delimiter, the token splits where it was put
/// together.
pub proof fn lemma_split_at_delimiter(prefix: Seq<char>, body: Seq<char>)
    requires
        !prefix.contains(DELIMITER),
    ensures
        (prefix + seq![DELIMITER] + body).contains(DELIMITER),
        prefix_of(prefix + seq![DELIMITER] + body) == prefix,
        body_of(prefix + seq![DELIMITER] + body) == body,
{
    let token = prefix + seq![DELIMITER] + body;
    let d = prefix.len() as int;
    assert(token[d] == DELIMITER);
    assert forall|j: int| 0 <= j < d implies token[j] != DELIMITER by {
        assert(token[j] == prefix[j]);
    }
    lemma_delimiter_unique(token, d);
    assert(prefix_of(token) =~= prefix);
    assert(body_of(token) =~= body);
}

} // verus!
