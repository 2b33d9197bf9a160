//! Turning a typed password into the credential a drive expects.
use vstd::prelude::*;

verus! {

/// Rounds of PBKDF2 used for drive credentials.
pub const KDF_ROUNDS: u32 = 75000;

/// Bytes in a drive credential.
pub const KEY_LEN: usize = 32;

/// The largest key `derive_key` produces.
pub const MAX_KEY_LEN: usize = 0xFFFF_FFFF;

/// The PBKDF2-HMAC-SHA1 key of `len` bytes for `password` and `salt`.
pub uninterp spec fn pbkdf2_hmac_sha1(password: Seq<u8>, salt: Seq<u8>, rounds: u32, len: nat) -> Seq<u8>;

/// Relies on `pbkdf2::pbkdf2` with `hmac::Hmac<sha1::Sha1>` as the PRF: it fills
/// the whole output buffer with a key that depends on the password, salt and round
/// count alone. Its only error comes from the PRF refusing the password as a key,
/// and HMAC takes keys of any length, so it always succeeds.
#[verifier::external_body]
fn pbkdf2_sha1(password: &[u8], salt: &[u8], rounds: u32, len: usize) -> (r: Option<Vec<u8>>)
    requires
        len <= MAX_KEY_LEN,
    ensures
        r is Some,
        r matches Some(k) ==> k@ == pbkdf2_hmac_sha1(password@, salt@, rounds, len as nat),
        r matches Some(k) ==> k@.len() == len,
{
    let mut out = vec![0u8; len];
    match pbkdf2::pbkdf2::<hmac::Hmac<sha1::Sha1>>(password, salt, rounds, &mut out) {
        Ok(()) => Some(out),
        Err(_) => None,
    }
}

/// A PBKDF2-HMAC-SHA1 key of `len` bytes; `None` exactly where `len` exceeds
/// `MAX_KEY_LEN`, below which the 32-bit block counter of the derivation (one
/// block per 20 bytes) cannot overflow.
pub fn derive_key(password: &[u8], salt: &[u8], rounds: u32, len: usize) -> (r: Option<Vec<u8>>)
    ensures
        len > MAX_KEY_LEN ==> r is None,
        len <= MAX_KEY_LEN ==> (r matches Some(k) && k@ == pbkdf2_hmac_sha1(
            password@,
            salt@,
            rounds,
            len as nat,
        ) && k@.len() == len),
{
    if len > MAX_KEY_LEN {
        return None;
    }
    pbkdf2_sha1(password, salt, rounds, len)
}

/// The credential for a drive: the password stretched with the drive's serial
/// number as salt.
pub fn derive_credential(password: &[u8], serial: &[u8]) -> (r: Option<Vec<u8>>)
    ensures
        r matches Some(k) && k@ == pbkdf2_hmac_sha1(
            password@,
            serial@,
            KDF_ROUNDS,
            KEY_LEN as nat,
        ) && k@.len() == KEY_LEN,
{
    derive_key(password, serial, KDF_ROUNDS, KEY_LEN)
}

} // verus!
