//! The proof key of an OAuth code exchange (RFC 7636).

use vstd::prelude::*;
use base64::Engine;
use rand::RngCore;
use sha2::Digest;

verus! {

/// The character that spells six bits in base64url.
pub open spec fn base64url_digit(n: int) -> char {
    if n < 26 {
        (65 + n) as u8 as char
    } else if n < 52 {
        (97 + (n - 26)) as u8 as char
    } else if n < 62 {
        (48 + (n - 52)) as u8 as char
    } else if n == 62 {
        '-'
    } else {
        '_'
    }
}

/// The byte at `i`, and zero beyond the last.
pub open spec fn byte_or_zero(bytes: Seq<u8>, i: int) -> int {
    if 0 <= i < bytes.len() {
        bytes[i] as int
    } else {
        0
    }
}

/// The `k`-th six bits of some bytes, read from the front. Three bytes make four of them.
pub open spec fn sextet(bytes: Seq<u8>, k: int) -> int {
    let i = k / 4 * 3;
    let (a, b, c) = (
        byte_or_zero(bytes, i),
        byte_or_zero(bytes, i + 1),
        byte_or_zero(bytes, i + 2),
    );
    if k % 4 == 0 {
        a / 4
    } else if k % 4 == 1 {
        a % 4 * 16 + b / 16
    } else if k % 4 == 2 {
        b % 16 * 4 + c / 64
    } else {
        c % 64
    }
}

/// How many characters spell `n` bytes: as many as it takes to cover their bits.
pub open spec fn base64url_len(n: int) -> int {
    (n * 8 + 5) / 6
}

/// Some bytes in base64url, without padding.
pub open spec fn base64url(bytes: Seq<u8>) -> Seq<char> {
    Seq::new(
        base64url_len(bytes.len() as int) as nat,
        |k: int| base64url_digit(sextet(bytes, k)),
    )
}

/// `base64::Engine::encode` of `URL_SAFE_NO_PAD`: each six bits become the character that the
/// URL-safe alphabet has for them, the last ones filled up with zeros, and no padding follows.
/// It panics on a length whose encoding has no buffer.
#[verifier::external_body]
fn encode_base64url(bytes: &Vec<u8>) -> (r: String)
    requires
        bytes.len() <= usize::MAX / 4,
    ensures
        r@ == base64url(bytes@),
{
    base64::engine::general_purpose::URL_SAFE_NO_PAD.encode(bytes)
}

/// The SHA-256 digest of some bytes.
pub uninterp spec fn sha256(bytes: Seq<u8>) -> Seq<u8>;

/// `sha2::Sha256::digest`: the digest, which has thirty-two bytes. Which bytes they are is a
/// function of the input.
#[verifier::external_body]
fn digest_sha256(bytes: &[u8]) -> (r: Vec<u8>)
    ensures
        r@ == sha256(bytes@),
        r.len() == 32,
{
    sha2::Sha256::digest(bytes).to_vec()
}

/// `rand::RngCore::fill_bytes` of `rand::rng()` over a buffer of `n` bytes. What the bytes are is
/// up to chance.
#[verifier::external_body]
fn random_bytes(n: usize) -> (r: Vec<u8>)
    requires
        n <= usize::MAX / 4,
    ensures
        r.len() == n,
{
    let mut buffer = vec![0u8; n];
    rand::rng().fill_bytes(&mut buffer);
    buffer
}

/// The S256 challenge of a verifier: the base64url of the digest of its bytes.
pub open spec fn challenge_of(verifier: Seq<char>) -> Seq<char> {
    base64url(sha256(vstd::utf8::encode_utf8(verifier)))
}

/// A PKCE verifier and its S256 challenge (RFC 7636).
#[derive(Debug, PartialEq, Eq)]
pub struct Pkce {
    pub verifier: String,
    pub challenge: String,
}

/// What a [`Pkce`] says.
pub struct PkceView {
    pub verifier: Seq<char>,
    pub challenge: Seq<char>,
}

impl View for Pkce {
    type V = PkceView;

    open spec fn view(&self) -> PkceView {
        PkceView { verifier: self.verifier@, challenge: self.challenge@ }
    }
}

impl PkceView {
    /// Whether the challenge is the one of the verifier.
    pub open spec fn valid(self) -> bool {
        self.challenge == challenge_of(self.verifier)
    }
}

impl Pkce {
    /// A verifier with its challenge.
    pub fn from_verifier(verifier: String) -> (r: Pkce)
        ensures
            r@.verifier == verifier@,
            r@.valid(),
    {
        let bytes = verifier.as_str().as_bytes();
        let digest = digest_sha256(bytes);
        let challenge = encode_base64url(&digest);
        Pkce { verifier, challenge }
    }

    /// A verifier of thirty-two random bytes, with its challenge.
    pub fn generate() -> (r: Pkce)
        ensures
            r@.valid(),
            exists|bytes: Seq<u8>| #![trigger base64url(bytes)]
                bytes.len() == 32 && r@.verifier == base64url(bytes),
    {
        Pkce::from_verifier(random_token(32))
    }
}

/// `bytes` bytes of OS randomness, base64url encoded.
///
/// Used for the PKCE verifier and the `state` parameter, both of which are
/// unguessable-or-nothing: a predictable `state` lets a stranger answer the loopback callback.
pub fn random_token(bytes: usize) -> (r: String)
    requires
        bytes <= usize::MAX / 4,
    ensures
        exists|random: Seq<u8>| #![trigger base64url(random)]
            random.len() == bytes && r@ == base64url(random),
{
    let buffer = random_bytes(bytes);
    let token = encode_base64url(&buffer);
    assert(buffer@.len() == bytes && token@ == base64url(buffer@));
    token
}

/// Different digits spell different six bits.
proof fn lemma_digit_injective(m: int, n: int)
    requires
        0 <= m < 64,
        0 <= n < 64,
        base64url_digit(m) == base64url_digit(n),
    ensures
        m == n,
{
}

/// The bytes come back from their sextets.
proof fn lemma_byte_from_sextets(bytes: Seq<u8>, i: int)
    requires
        0 <= i < bytes.len(),
    ensures
        ({
            let k = i / 3 * 4;
            bytes[i] as int == if i % 3 == 0 {
                sextet(bytes, k) * 4 + sextet(bytes, k + 1) / 16
            } else if i % 3 == 1 {
                sextet(bytes, k + 1) % 16 * 16 + sextet(bytes, k + 2) / 4
            } else {
                sextet(bytes, k + 2) % 4 * 64 + sextet(bytes, k + 3)
            }
        }),
        i / 3 * 4 + i % 3 + 1 < base64url_len(bytes.len() as int),
{
    let k = i / 3 * 4;
    assert(k / 4 * 3 == i - i % 3);
    assert((k + 1) / 4 * 3 == i - i % 3);
    assert((k + 2) / 4 * 3 == i - i % 3);
    assert((k + 3) / 4 * 3 == i - i % 3);
    assert(k % 4 == 0 && (k + 1) % 4 == 1 && (k + 2) % 4 == 2 && (k + 3) % 4 == 3);
}

/// A sextet is six bits.
proof fn lemma_sextet_range(bytes: Seq<u8>, k: int)
    ensures
        0 <= sextet(bytes, k) < 64,
{
}

/// A token loses nothing of its randomness: different bytes make different tokens.
pub proof fn a_token_keeps_every_bit(a: Seq<u8>, b: Seq<u8>)
    requires
        a.len() == b.len(),
        base64url(a) == base64url(b),
    ensures
        a == b,
{
    assert forall|i: int| 0 <= i < a.len() implies a[i] == b[i] by {
        lemma_byte_from_sextets(a, i);
        lemma_byte_from_sextets(b, i);
        let k = i / 3 * 4;
        let n = base64url_len(a.len() as int);
        assert forall|j: int| 0 <= j < n implies #[trigger] sextet(a, j) == sextet(b, j) by {
            assert(base64url(a)[j] == base64url_digit(sextet(a, j)));
            assert(base64url(b)[j] == base64url_digit(sextet(b, j)));
            lemma_sextet_range(a, j);
            lemma_sextet_range(b, j);
            lemma_digit_injective(sextet(a, j), sextet(b, j));
        }
    }
    assert(a =~= b);
}

} // verus!
