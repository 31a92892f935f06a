//! Trusted boundary to the hash, base64 and RSA crates, and to the
//! clock.
//!
//! Every function here is an `external_body` wrapper around calls into
//! `sha2`, `base64`, `rsa`, `rand` or `chrono`. The names below
//! (`sha512_hex_of`, `b64_of`, ...) stand for what those calls return:
//! each is a function of its arguments alone, computed the same way in
//! every process, so giving it a name is sound. The verified library
//! states its contracts over these names.

use vstd::prelude::*;

use base64::Engine;
use base64::engine::general_purpose::STANDARD_NO_PAD;
use rsa::PublicKey;
use rsa::pkcs1::{DecodeRsaPublicKey, EncodeRsaPublicKey};
use rsa::pkcs8::{DecodePrivateKey, EncodePrivateKey};
use sha2::Digest;

verus! {

/// The 64 SHA-512 digest bytes of a string's UTF-8 bytes.
pub uninterp spec fn sha512_of(s: Seq<char>) -> Seq<u8>;

/// The lowercase-hex SHA-512 digest of a string's UTF-8 bytes: the
/// digest bytes rendered by the verified hex writer.
pub open spec fn sha512_hex_of(s: Seq<char>) -> Seq<char> {
    crate::hex::hex_render(sha512_of(s))
}

/// The SHA-256 digest of a string's UTF-8 bytes.
pub uninterp spec fn sha256_of(s: Seq<char>) -> Seq<u8>;

/// The base64 rendering of a byte string, standard alphabet, no
/// padding.
pub uninterp spec fn b64_of(b: Seq<u8>) -> Seq<char>;

/// Whether a string is decodable base64, standard alphabet, no padding.
pub uninterp spec fn b64_ok(s: Seq<char>) -> bool;

/// What a decodable base64 string decodes to.
pub uninterp spec fn b64_bytes_of(s: Seq<char>) -> Seq<u8>;

/// Whether bytes parse as a PKCS#1 DER RSA public key.
pub uninterp spec fn rsa_pub_ok(der: Seq<u8>) -> bool;

/// Whether bytes are a consistent two-prime PKCS#8 DER RSA private
/// key: they parse, their components agree, and private-key
/// operations take the crate's ordinary path, as they do for every
/// generated key. Decodable bytes with nonsense components (a zero
/// prime) abort inside the crate's own parser precomputation, so
/// every function that takes a private key excludes them. The name is
/// pinned only at generated keys; no runtime test of it exists,
/// because testing would mean parsing.
pub uninterp spec fn rsa_priv_ok(der: Seq<u8>) -> bool;

/// The PKCS#1 DER of the public key belonging to a PKCS#8 private key.
pub uninterp spec fn rsa_pub_of_priv(priv_der: Seq<u8>) -> Seq<u8>;

/// The PKCS#1 v1.5 signature of a digest under a private key. Signing
/// without an RNG applies no blinding, so the result depends on the
/// key and the digest alone.
pub uninterp spec fn rsa_sig_of(priv_der: Seq<u8>, digest: Seq<u8>) -> Seq<u8>;

/// Whether `pub_der` parses as a public key under which `sig` is a
/// valid PKCS#1 v1.5 signature of `digest`.
pub uninterp spec fn rsa_sig_ok(pub_der: Seq<u8>, digest: Seq<u8>, sig: Seq<u8>) -> bool;

/// Whether signing `digest` under `priv_der` succeeds: the bytes
/// parse as a private key whose modulus is large enough for the
/// padded digest. Both conditions depend on the arguments alone.
pub uninterp spec fn rsa_can_sign(priv_der: Seq<u8>, digest: Seq<u8>) -> bool;

/// Relies on `sha2::Sha512`: a 64-byte digest, the same for the same
/// input.
#[verifier::external_body]
pub(crate) fn sha512_digest(s: &str) -> (r: Vec<u8>)
    ensures
        r@ == sha512_of(s@),
        r@.len() == 64,
{
    sha2::Sha512::digest(s.as_bytes()).to_vec()
}

/// The lowercase-hex SHA-512 digest of a string: the trusted digest,
/// rendered in hex by verified code.
pub fn sha512_hex(s: &str) -> (r: String)
    ensures
        r@ == sha512_hex_of(s@),
        r@.len() == 128,
{
    let digest = sha512_digest(s);
    let r = crate::hex::to_hex(&digest);
    proof {
        crate::hex::lemma_hex_render_len(digest@);
    }
    r
}

/// Relies on `sha2::Sha256`: a 32-byte digest, the same for the same
/// input.
#[verifier::external_body]
pub fn sha256_digest(s: &str) -> (r: Vec<u8>)
    ensures
        r@ == sha256_of(s@),
        r@.len() == 32,
{
    sha2::Sha256::digest(s.as_bytes()).to_vec()
}

/// Relies on `base64`'s `STANDARD_NO_PAD` engine: encoding is a
/// function of the bytes, and decoding inverts it.
#[verifier::external_body]
pub fn b64_encode(bytes: &[u8]) -> (r: String)
    ensures
        r@ == b64_of(bytes@),
        b64_ok(r@),
        b64_bytes_of(r@) == bytes@,
{
    STANDARD_NO_PAD.encode(bytes)
}

/// Relies on `base64`'s `STANDARD_NO_PAD` engine: decoding succeeds
/// exactly on well-formed input and is a function of the text.
#[verifier::external_body]
pub fn b64_decode(s: &str) -> (r: Option<Vec<u8>>)
    ensures
        r is Some <==> b64_ok(s@),
        (r matches Some(bytes) ==> bytes@ == b64_bytes_of(s@)),
{
    match STANDARD_NO_PAD.decode(s.as_bytes()) {
        Ok(bytes) => Some(bytes),
        Err(_) => None,
    }
}

/// Relies on `rsa::RsaPublicKey::from_pkcs1_der`: parsing succeeds or
/// fails depending on the bytes alone.
#[verifier::external_body]
pub fn rsa_pub_key_ok(der: &[u8]) -> (r: bool)
    ensures
        r == rsa_pub_ok(der@),
{
    rsa::RsaPublicKey::from_pkcs1_der(der).is_ok()
}

/// Relies on `rsa::RsaPrivateKey::from_pkcs8_der` and
/// `RsaPrivateKey::sign` with `Pkcs1v15Sign::new_raw()` and no RNG:
/// for a consistent key, success and the signature are functions of
/// key and digest, and the signature verifies under the key's own
/// public half. The key must be consistent because the crate's parser
/// precomputation aborts on decodable bytes whose primes are nonsense.
#[verifier::external_body]
pub(crate) fn rsa_sign_digest(priv_der: &[u8], digest: &[u8]) -> (r: Option<Vec<u8>>)
    requires
        rsa_priv_ok(priv_der@),
    ensures
        r is Some <==> rsa_can_sign(priv_der@, digest@),
        (r matches Some(sig) ==> sig@ == rsa_sig_of(priv_der@, digest@)),
        (r matches Some(sig) ==> rsa_sig_ok(rsa_pub_of_priv(priv_der@), digest@, sig@)),
{
    let key = rsa::RsaPrivateKey::from_pkcs8_der(priv_der).ok()?;
    key.sign(rsa::Pkcs1v15Sign::new_raw(), digest).ok()
}

/// Relies on `rsa::RsaPublicKey::from_pkcs1_der` and
/// `PublicKey::verify` with `Pkcs1v15Sign::new_raw()`: the outcome is
/// a function of the key bytes, the digest and the signature.
#[verifier::external_body]
pub fn rsa_verify_digest(pub_der: &[u8], digest: &[u8], sig: &[u8]) -> (r: bool)
    ensures
        r == rsa_sig_ok(pub_der@, digest@, sig@),
{
    match rsa::RsaPublicKey::from_pkcs1_der(pub_der) {
        Ok(key) => key.verify(rsa::Pkcs1v15Sign::new_raw(), digest, sig).is_ok(),
        Err(_) => false,
    }
}

/// Relies on `rsa::RsaPrivateKey::new` with `rand`'s `OsRng`, and the
/// DER encoders of `pkcs8` and `pkcs1`. The keys are random: nothing
/// is stated of their bytes except that they belong together, are
/// consistent, and — for sizes within the crate's public-key bounds —
/// encode a public half that its own parser accepts back.
#[verifier::external_body]
pub(crate) fn rsa_generate_keypair(bits: usize) -> (r: Option<(Vec<u8>, Vec<u8>)>)
    requires
        64 <= bits <= 4096,
    ensures
        (r matches Some(pair) ==> rsa_priv_ok(pair.0@)),
        (r matches Some(pair) ==> pair.1@ == rsa_pub_of_priv(pair.0@)),
        (r matches Some(pair) ==> rsa_pub_ok(pair.1@)),
{
    let mut rng = rand::rngs::OsRng;
    let key = rsa::RsaPrivateKey::new(&mut rng, bits).ok()?;
    let priv_der = key.to_pkcs8_der().ok()?.as_bytes().to_vec();
    let pub_der = key.to_public_key().to_pkcs1_der().ok()?.as_bytes().to_vec();
    Some((priv_der, pub_der))
}

/// Relies on `chrono::Utc::now`: seconds since the epoch, read from
/// the system clock; nothing is stated of the value.
#[verifier::external_body]
pub fn now_timestamp() -> i64 {
    chrono::Utc::now().timestamp()
}

} // verus!
