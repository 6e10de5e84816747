//! The trusted boundary to the cryptographic crates. Each wrapper makes one
//! outside call; results that are pure functions of the arguments are given
//! spec-level names that the callers' contracts build on.

use vstd::prelude::*;
use base64::Engine;
use hmac::Mac;

verus! {

/// What the standard base64 alphabet (with padding) decodes a text to, or
/// nothing when the text is not valid base64.
pub uninterp spec fn b64_decode_of(s: Seq<char>) -> Option<Seq<u8>>;

/// The standard-alphabet, unpadded base64 encoding of a byte string.
pub uninterp spec fn b64_nopad_of(b: Seq<u8>) -> Seq<char>;

/// What CBC Rijndael with 32-byte blocks and zero padding decrypts a
/// ciphertext to under the given key and IV, or nothing when the key or the
/// ciphertext length is invalid.
pub uninterp spec fn rijndael_decrypt_of(key: Seq<u8>, iv: Seq<u8>, cipher: Seq<u8>) -> Option<
    Seq<u8>,
>;

/// The HMAC-SHA256 tag of a message under a key.
pub uninterp spec fn hmac_sha256_of(key: Seq<u8>, msg: Seq<u8>) -> Seq<u8>;

/// The lowercase hex MD5 digest of a byte string.
pub uninterp spec fn md5_hex_of(b: Seq<u8>) -> Seq<char>;

/// Whether a password matches a bcrypt hash string. False also when the
/// hash string is malformed.
pub uninterp spec fn bcrypt_matches(password: Seq<u8>, hash: Seq<char>) -> bool;

/// Relies on base64's STANDARD engine: decoding is a function of the text
/// alone and fails exactly on invalid base64.
#[verifier::external_body]
pub fn base64_decode(s: &str) -> (r: Option<Vec<u8>>)
    ensures
        r is Some <==> b64_decode_of(s@) is Some,
        r matches Some(v) ==> b64_decode_of(s@) == Some(v@),
{
    base64::engine::general_purpose::STANDARD.decode(s).ok()
}

/// Relies on base64's STANDARD_NO_PAD engine: encoding is a function of the
/// bytes alone.
#[verifier::external_body]
pub fn base64_nopad_encode(b: &Vec<u8>) -> (r: String)
    ensures
        r@ == b64_nopad_of(b@),
{
    base64::engine::general_purpose::STANDARD_NO_PAD.encode(b)
}

/// Relies on simple_rijndael's RijndaelCbc with zero padding and 32-byte
/// blocks: decryption is a function of key, IV and ciphertext; construction
/// fails on bad key sizes. The crate's decrypt panics on an empty
/// ciphertext and indexes 32 bytes of the IV, so the caller must rule both
/// out; a ciphertext that is not a whole number of blocks is rejected.
#[verifier::external_body]
pub fn rijndael_cbc_decrypt(key: &Vec<u8>, iv: &Vec<u8>, cipher: Vec<u8>) -> (r: Option<Vec<u8>>)
    requires
        cipher@.len() > 0,
        cipher@.len() % 32 == 0,
        iv@.len() >= 32,
    ensures
        r is Some <==> rijndael_decrypt_of(key@, iv@, cipher@) is Some,
        r matches Some(v) ==> rijndael_decrypt_of(key@, iv@, cipher@) == Some(v@),
{
    let cbc = simple_rijndael::impls::RijndaelCbc::<simple_rijndael::paddings::ZeroPadding>::new(
        key,
        32,
    ).ok()?;
    cbc.decrypt(iv, cipher).ok()
}

/// Relies on hmac with sha2: the tag is a function of key and message and
/// is 32 bytes long; HMAC accepts keys of any length.
#[verifier::external_body]
pub fn hmac_sha256(key: &[u8], msg: &[u8]) -> (r: Vec<u8>)
    ensures
        r@ == hmac_sha256_of(key@, msg@),
        r@.len() == 32,
{
    let mut mac = <hmac::Hmac<sha2::Sha256> as Mac>::new_from_slice(key).expect(
        "HMAC accepts any key length",
    );
    mac.update(msg);
    mac.finalize().into_bytes().to_vec()
}

/// Relies on md5: the digest is a function of the bytes alone; its
/// lowercase hex form is 32 characters.
#[verifier::external_body]
pub fn md5_hex(data: &[u8]) -> (r: String)
    ensures
        r@ == md5_hex_of(data@),
        r@.len() == 32,
{
    format!("{:x}", md5::compute(data))
}

/// Relies on bcrypt::verify: the outcome is a function of password and hash
/// string; errors on malformed hashes count as a mismatch.
#[verifier::external_body]
pub fn bcrypt_verify(password: &[u8], hash: &str) -> (r: bool)
    ensures
        r == bcrypt_matches(password@, hash@),
{
    bcrypt::verify(password, hash).unwrap_or(false)
}

/// Relies on uuid::Uuid::new_v4: a fresh random token; its hyphenated text
/// form is always 36 characters.
#[verifier::external_body]
pub fn generate_session_token() -> (r: String)
    ensures
        r@.len() == 36,
{
    uuid::Uuid::new_v4().to_string()
}

/// Relies on rand::random: a random 32-bit value; nothing can be promised
/// of it.
#[verifier::external_body]
fn random_u32() -> u32 {
    rand::random::<u32>()
}

/// The bot's dice roll: a random value below the bound, whatever the
/// random source returned; a zero bound rolls zero.
pub fn roll_value(max: u32) -> (r: u32)
    ensures
        max > 0 ==> r < max,
        max == 0 ==> r == 0,
{
    if max == 0 {
        0
    } else {
        random_u32() % max
    }
}

/// Relies on chrono::Utc::now: the wall clock in Unix seconds; nothing can
/// be promised of its value.
#[verifier::external_body]
fn unix_now() -> i64 {
    chrono::Utc::now().timestamp()
}

/// The wall clock, clamped into a range that leaves room for any token
/// lifetime arithmetic.
pub fn clamped_now() -> (r: i64)
    ensures
        0 <= r <= 0x1000_0000_0000_0000,
{
    let t = unix_now();
    if t < 0 {
        0
    } else if t > 0x1000_0000_0000_0000 {
        0x1000_0000_0000_0000
    } else {
        t
    }
}

} // verus!
