use vstd::prelude::*;
use vstd::utf8::encode_utf8;
use rand::Rng;
use sha2::Digest;

verus! {

/// The value of a byte string read as a big-endian unsigned number.
pub open spec fn big_endian_value(bytes: Seq<u8>) -> nat
    decreases bytes.len(),
{
    if bytes.len() == 0 {
        0
    } else {
        big_endian_value(bytes.drop_last()) * 256 + bytes.last() as nat
    }
}

/// What `SecretKey::from_slice` accepts: 32 bytes whose big-endian value is a
/// non-zero scalar below the order of the secp256k1 group.
pub open spec fn is_secret_key(bytes: Seq<u8>) -> bool {
    &&& bytes.len() == 32
    &&& 0 < big_endian_value(bytes)
    &&& big_endian_value(bytes) < 0xffff_ffff_ffff_ffff_ffff_ffff_ffff_fffe_baae_dce6_af48_a03b_bfd2_5e8c_d036_4141
}

/// The 33-byte compressed public key of a secret key.
pub uninterp spec fn public_key_of(secret: Seq<u8>) -> Seq<u8>;

/// The DER-encoded RFC 6979 ECDSA signature of a 32-byte digest under a secret key.
pub uninterp spec fn ecdsa_der_of(secret: Seq<u8>, digest: Seq<u8>) -> Seq<u8>;

/// Whether `signature` parses as DER, `public` parses as a public key, and the
/// signature verifies for the 32-byte digest under that key.
pub uninterp spec fn ecdsa_verifies(public: Seq<u8>, digest: Seq<u8>, signature: Seq<u8>) -> bool;

/// The SHA-256 digest of a byte string.
pub uninterp spec fn sha256_of(data: Seq<u8>) -> Seq<u8>;

/// The Base58 rendering (Bitcoin alphabet) of a byte string.
pub uninterp spec fn base58_of(data: Seq<u8>) -> Seq<char>;

/// The lowercase hexadecimal character of a value below sixteen.
pub open spec fn hex_char(d: int) -> char {
    seq!['0', '1', '2', '3', '4', '5', '6', '7', '8', '9', 'a', 'b', 'c', 'd', 'e', 'f'][d]
}

/// Two lowercase hexadecimal characters per byte, high nibble first.
pub open spec fn hex_of(data: Seq<u8>) -> Seq<char>
    decreases data.len(),
{
    if data.len() == 0 {
        seq![]
    } else {
        hex_of(data.drop_last()) + seq![
            hex_char(data.last() as int / 16),
            hex_char(data.last() as int % 16),
        ]
    }
}

/// The hexadecimal SHA-256 digest of the UTF-8 bytes of a text.
pub open spec fn digest_hex(text: Seq<char>) -> Seq<char> {
    hex_of(sha256_of(encode_utf8(text)))
}

/// Relies on sha2::Sha256::digest: the SHA-256 digest of `data`, 32 bytes long.
#[verifier::external_body]
pub(crate) fn sha256(data: &[u8]) -> (r: Vec<u8>)
    ensures
        r@ == sha256_of(data@),
        r@.len() == 32,
{
    sha2::Sha256::digest(data).to_vec()
}

/// Relies on hex::encode: two lowercase hexadecimal digits per byte.
#[verifier::external_body]
pub(crate) fn hex_encode(data: &[u8]) -> (r: String)
    ensures
        r@ == hex_of(data@),
{
    hex::encode(data)
}

/// Relies on bs58::encode(..).into_string(): the Base58 rendering of `data`.
#[verifier::external_body]
pub(crate) fn base58_encode(data: &[u8]) -> (r: String)
    ensures
        r@ == base58_of(data@),
{
    bs58::encode(data).into_string()
}

/// Relies on rand::random: a uniformly drawn 64-bit value.
#[verifier::external_body]
pub(crate) fn random_u64() -> (r: u64) {
    rand::random::<u64>()
}

/// Relies on rand::Rng::gen_range over `0..n` with the thread-local generator.
#[verifier::external_body]
pub(crate) fn random_below(n: usize) -> (r: usize)
    requires
        n > 0,
    ensures
        r < n,
{
    rand::thread_rng().gen_range(0..n)
}

/// Relies on std::time::SystemTime::now: whole seconds since the Unix epoch,
/// zero for a clock set before it.
#[verifier::external_body]
pub(crate) fn unix_time_now() -> (r: u64) {
    std::time::SystemTime::now().duration_since(std::time::UNIX_EPOCH).map_or(0, |d| d.as_secs())
}

/// Relies on secp256k1::SecretKey::new with the thread-local generator, which
/// draws 32 random bytes until `secp256k1_ec_seckey_verify` accepts them (the
/// same test that SecretKey::from_slice makes), and on SecretKey::secret_bytes.
#[verifier::external_body]
pub(crate) fn generate_secret_key() -> (r: Vec<u8>)
    ensures
        r@.len() == 32,
        is_secret_key(r@),
{
    secp256k1::SecretKey::new(&mut rand::thread_rng()).secret_bytes().to_vec()
}

/// Relies on secp256k1::PublicKey::from_secret_key and PublicKey::serialize
/// (33 bytes), the secret read by SecretKey::from_slice.
#[verifier::external_body]
pub(crate) fn public_key_bytes(secret: &[u8]) -> (r: Vec<u8>)
    requires
        is_secret_key(secret@),
    ensures
        r@ == public_key_of(secret@),
        r@.len() == 33,
{
    match secp256k1::SecretKey::from_slice(secret) {
        Ok(sk) => secp256k1::PublicKey::from_secret_key(&secp256k1::Secp256k1::signing_only(), &sk)
            .serialize()
            .to_vec(),
        Err(_) => Vec::new(),
    }
}

/// Relies on secp256k1::Secp256k1::sign_ecdsa and ecdsa::Signature::serialize_der,
/// the secret read by SecretKey::from_slice and the digest by Message::from_digest_slice.
/// The signature is low-S normalised DER, which Signature::from_der parses back and
/// verify_ecdsa accepts under the serialized public key of the same secret.
#[verifier::external_body]
pub(crate) fn ecdsa_sign(secret: &[u8], digest: &[u8]) -> (r: Vec<u8>)
    requires
        is_secret_key(secret@),
        digest@.len() == 32,
    ensures
        r@ == ecdsa_der_of(secret@, digest@),
        ecdsa_verifies(public_key_of(secret@), digest@, r@),
{
    match (secp256k1::SecretKey::from_slice(secret), secp256k1::Message::from_digest_slice(digest)) {
        (Ok(sk), Ok(msg)) => secp256k1::Secp256k1::signing_only().sign_ecdsa(&msg, &sk).serialize_der().to_vec(),
        _ => Vec::new(),
    }
}

/// Relies on secp256k1::Secp256k1::verify_ecdsa, the key read by
/// PublicKey::from_slice, the signature by ecdsa::Signature::from_der and the
/// digest by Message::from_digest_slice; a key or signature that does not parse
/// gives `false`.
#[verifier::external_body]
pub(crate) fn ecdsa_verify(public: &[u8], digest: &[u8], signature: &[u8]) -> (r: bool)
    requires
        digest@.len() == 32,
    ensures
        r == ecdsa_verifies(public@, digest@, signature@),
{
    match (
        secp256k1::PublicKey::from_slice(public),
        secp256k1::ecdsa::Signature::from_der(signature),
        secp256k1::Message::from_digest_slice(digest),
    ) {
        (Ok(pk), Ok(sig), Ok(msg)) => secp256k1::Secp256k1::verification_only().verify_ecdsa(&msg, &sig, &pk).is_ok(),
        _ => false,
    }
}

/// Two hexadecimal characters per byte.
pub proof fn lemma_hex_len(data: Seq<u8>)
    ensures
        hex_of(data).len() == 2 * data.len(),
    decreases data.len(),
{
    if data.len() > 0 {
        lemma_hex_len(data.drop_last());
    }
}

/// The hexadecimal SHA-256 digest of the UTF-8 bytes of `text`.
pub fn hash_text(text: &str) -> (r: String)
    ensures
        r@ == digest_hex(text@),
        r@.len() == 64,
{
    let digest = sha256(text.as_bytes());
    proof {
        lemma_hex_len(digest@);
    }
    hex_encode(digest.as_slice())
}

} // verus!
