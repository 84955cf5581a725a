//! The outside functions that the capability keys rest on: the cipher, the
//! text encoding of bytes, and the random source. What is stated of them
//! here is believed, not proved.

use vstd::prelude::*;
use vstd::utf8::encode_utf8;
use aes_gcm::aead::{Aead, AeadCore, KeyInit, Payload};
use aes_gcm::{Aes128Gcm, Key, Nonce};
use base64::prelude::{Engine, BASE64_STANDARD};
use rand::Rng;

verus! {

/// The number of bytes in a nonce of the cipher.
pub const NONCE_LEN: usize = 12;

/// The number of bytes by which sealing lengthens a message.
pub const TAG_LEN: usize = 16;

/// The greatest length of a message or of associated data that the cipher
/// takes.
pub const SEAL_MAX: u64 = 0x10_0000_0000;

/// What AES-128-GCM makes of a message under a key, a nonce and associated
/// data: the encrypted message followed by the authentication tag.
pub uninterp spec fn aes128_gcm_seal(key: Seq<u8>, nonce: Seq<u8>, aad: Seq<u8>, msg: Seq<u8>) -> Seq<u8>;

/// The message that AES-128-GCM recovers from sealed bytes under a key, a
/// nonce and associated data; nothing where the tag does not authenticate
/// them.
pub uninterp spec fn aes128_gcm_open(key: Seq<u8>, nonce: Seq<u8>, aad: Seq<u8>, sealed: Seq<u8>) -> Option<Seq<u8>>;

/// The standard base64 text of bytes, with padding.
pub uninterp spec fn base64_standard_encode(bytes: Seq<u8>) -> Seq<char>;

/// The bytes that standard base64 text stands for; nothing where the text is
/// not canonical base64.
pub uninterp spec fn base64_standard_decode(text: Seq<u8>) -> Option<Seq<u8>>;

/// `Aes128Gcm::encrypt` of the `aes-gcm` crate. It fails exactly when the
/// message or the associated data is longer than the cipher takes. What it
/// returns is a function of its arguments, is sixteen bytes longer than the
/// message, and is opened again by `decrypt` under the same key, nonce and
/// associated data.
#[verifier::external_body]
pub(crate) fn seal(key: &[u8; 16], nonce: &[u8], aad: &[u8], msg: &[u8]) -> (r: Option<Vec<u8>>)
    requires
        nonce@.len() == NONCE_LEN,
        msg@.len() + TAG_LEN <= isize::MAX,
    ensures
        match r {
            Some(sealed) => {
                &&& msg@.len() <= SEAL_MAX && aad@.len() <= SEAL_MAX
                &&& sealed@ == aes128_gcm_seal(key@, nonce@, aad@, msg@)
                &&& sealed@.len() == msg@.len() + TAG_LEN
                &&& aes128_gcm_open(key@, nonce@, aad@, sealed@) == Some(msg@)
            },
            None => msg@.len() > SEAL_MAX || aad@.len() > SEAL_MAX,
        },
{
    let cipher = Aes128Gcm::new(Key::<Aes128Gcm>::from_slice(key));
    cipher.encrypt(Nonce::from_slice(nonce), Payload { msg, aad }).ok()
}

/// `Aes128Gcm::decrypt` of the `aes-gcm` crate: the message, or nothing
/// where the sealed bytes do not authenticate. The outcome is a function of
/// the arguments.
#[verifier::external_body]
pub(crate) fn open(key: &[u8; 16], nonce: &[u8], aad: &[u8], sealed: &[u8]) -> (r: Option<Vec<u8>>)
    requires
        nonce@.len() == NONCE_LEN,
    ensures
        match r {
            Some(msg) => aes128_gcm_open(key@, nonce@, aad@, sealed@) == Some(msg@),
            None => aes128_gcm_open(key@, nonce@, aad@, sealed@) is None,
        },
{
    let cipher = Aes128Gcm::new(Key::<Aes128Gcm>::from_slice(key));
    cipher.decrypt(Nonce::from_slice(nonce), Payload { msg: sealed, aad }).ok()
}

/// `Aes128Gcm::generate_nonce` with the operating system's random source: a
/// fresh nonce of twelve bytes.
#[verifier::external_body]
pub(crate) fn generate_nonce() -> (r: Vec<u8>)
    ensures
        r@.len() == NONCE_LEN,
{
    Aes128Gcm::generate_nonce(&mut rand::rngs::OsRng).to_vec()
}

/// `BASE64_STANDARD.encode` of the `base64` crate. The text is a function of
/// the bytes, and `decode` gives the bytes back from it.
#[verifier::external_body]
pub(crate) fn base64_encode(bytes: &[u8]) -> (r: String)
    requires
        bytes@.len() <= 0x3fff_ffff,
    ensures
        r@ == base64_standard_encode(bytes@),
        base64_standard_decode(encode_utf8(r@)) == Some(bytes@),
{
    BASE64_STANDARD.encode(bytes)
}

/// `BASE64_STANDARD.decode` of the `base64` crate: the bytes, or nothing
/// where the text is not canonical base64. The outcome is a function of the
/// text.
#[verifier::external_body]
pub(crate) fn base64_decode(text: &[u8]) -> (r: Option<Vec<u8>>)
    ensures
        match r {
            Some(bytes) => base64_standard_decode(text@) == Some(bytes@),
            None => base64_standard_decode(text@) is None,
        },
{
    BASE64_STANDARD.decode(text).ok()
}

/// `Rng::gen_range` of the `rand` crate on the thread's generator, for an
/// inclusive range of numbers: some number of the range.
#[verifier::external_body]
pub(crate) fn random_in(low: u64, high: u64) -> (r: u64)
    requires
        low <= high,
    ensures
        low <= r <= high,
{
    rand::thread_rng().gen_range(low..=high)
}

/// `Rng::gen` of the `rand` crate on the thread's generator: sixteen random
/// bytes.
#[verifier::external_body]
pub(crate) fn random_bytes() -> (r: Vec<u8>)
    ensures
        r@.len() == 16,
{
    rand::thread_rng().gen::<[u8; 16]>().to_vec()
}

} // verus!
