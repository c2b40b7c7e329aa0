//! Signature checks, time windows and nonces.

use vstd::prelude::*;
use vstd::utf8::encode_utf8;
use crate::grammar::serialize_spec;
use crate::message::{
    is_alphanumeric, rfc3339_instant, timestamp_instant, Message, MessageView, SiweError,
};

verus! {

/// The EIP-191 personal-message digest of `msg`.
pub uninterp spec fn eip191_digest(msg: Seq<u8>) -> Seq<u8>;

/// The address whose secp256k1 key made the 65-byte signature `sig` over the
/// 32-byte digest `hash`, where one can be recovered.
pub uninterp spec fn ecrecover(hash: Seq<u8>, sig: Seq<u8>) -> Option<Seq<u8>>;

/// Relies on `ethers_core::utils::hash_message`: Keccak-256 of the EIP-191
/// prefix, the decimal byte length of `msg`, and `msg`.
#[verifier::external_body]
fn personal_hash(msg: &[u8]) -> (r: [u8; 32])
    ensures
        r@ == eip191_digest(msg@),
{
    ethers_core::utils::hash_message(msg).0
}

/// Relies on `ethers_core::types::Signature::recover` over a prehashed
/// message, with the signature read as `r`, `s` and `v` by its
/// `TryFrom<&[u8]>`: the address of the key that made the signature.
#[verifier::external_body]
fn recover_signer(hash: &[u8; 32], sig: &[u8; 65]) -> (r: Option<[u8; 20]>)
    ensures
        r matches Some(a) ==> ecrecover(hash@, sig@) == Some(a@),
        r is None ==> ecrecover(hash@, sig@) is None,
{
    match ethers_core::types::Signature::try_from(&sig[..]) {
        Ok(s) => match s.recover(ethers_core::types::H256(*hash)) {
            Ok(a) => Some(a.0),
            Err(_) => None,
        },
        Err(_) => None,
    }
}

/// The recovery ids that a signature may carry: 0 and 1, or 27 and 28.
pub open spec fn recovery_id_ok(v: u8) -> bool {
    v == 0 || v == 1 || v == 27 || v == 28
}

/// Whether `sig` signs the canonical text of `m` for the account `m.address`.
pub open spec fn signed_by(m: MessageView, sig: Seq<u8>) -> bool {
    &&& sig.len() == 65
    &&& recovery_id_ok(sig[64])
    &&& ecrecover(eip191_digest(encode_utf8(serialize_spec(m))), sig) == Some(m.address)
}

/// The EIP-191 personal-message digest of `msg`.
pub fn personal_message_hash(msg: &[u8]) -> (r: [u8; 32])
    ensures
        r@ == eip191_digest(msg@),
{
    personal_hash(msg)
}

/// The address whose key made `sig` over the digest `hash`. It fails with
/// `InvalidSignature` where the recovery id is none of 0, 1, 27 and 28, or
/// where no key can be recovered.
pub fn recover_address(hash: &[u8; 32], sig: &[u8; 65]) -> (r: Result<[u8; 20], SiweError>)
    ensures
        match r {
            Ok(a) => recovery_id_ok(sig@[64]) && ecrecover(hash@, sig@) == Some(a@),
            Err(e) => e is InvalidSignature && !(recovery_id_ok(sig@[64]) && ecrecover(
                hash@,
                sig@,
            ) is Some),
        },
{
    let v = sig[64];
    if !(v == 0 || v == 1 || v == 27 || v == 28) {
        return Err(SiweError::InvalidSignature);
    }
    match recover_signer(hash, sig) {
        Some(a) => Ok(a),
        None => Err(SiweError::InvalidSignature),
    }
}

/// Whether the signature is a personal-message signature of the canonical
/// text of `m` by the account `m.address`. Every failure gives `false`.
pub fn verify_signature(m: &Message, sig: &[u8; 65]) -> (r: bool)
    ensures
        r == signed_by(m@, sig@),
{
    let text = m.to_text();
    let hash = personal_message_hash(text.as_str().as_bytes());
    assert(hash@ == eip191_digest(encode_utf8(serialize_spec(m@))));
    match recover_address(&hash, sig) {
        Ok(a) => {
            let mut i: usize = 0;
            while i < 20
                invariant
                    i <= 20,
                    forall|j: int| 0 <= j < i ==> a@[j] == m.address@[j],
                    ecrecover(eip191_digest(encode_utf8(serialize_spec(m@))), sig@) == Some(a@),
                    recovery_id_ok(sig@[64]),
                decreases 20 - i,
            {
                if a[i] != m.address[i] {
                    assert(a@[i as int] != m.address@[i as int]);
                    return false;
                }
                i += 1;
            }
            assert(a@ =~= m.address@);
            true
        },
        Err(_) => false,
    }
}

/// Whether the reference instant `t` (nanoseconds since the Unix epoch) lies
/// in the window of `m`: at or after `not_before`, and before
/// `expiration_time`. `issued_at` plays no part.
pub open spec fn time_ok(m: MessageView, t: int) -> bool {
    &&& (m.not_before matches Some(b) ==> rfc3339_instant(b) matches Some(i) && t >= i)
    &&& (m.expiration_time matches Some(e) ==> rfc3339_instant(e) matches Some(i) && t < i)
}

/// Whether `m` is valid in time at the instant `now`.
pub fn valid_at(m: &Message, now: i128) -> (r: bool)
    ensures
        r == time_ok(m@, now as int),
{
    let after_start = match &m.not_before {
        Some(b) => match timestamp_instant(b.as_str()) {
            Some(i) => now >= i,
            None => false,
        },
        None => true,
    };
    let before_end = match &m.expiration_time {
        Some(e) => match timestamp_instant(e.as_str()) {
            Some(i) => now < i,
            None => false,
        },
        None => true,
    };
    after_start && before_end
}

/// The time window is half open: a message is valid at its `not_before`
/// instant, no longer valid at its `expiration_time` instant, and a message
/// with neither is valid at every instant.
pub proof fn lemma_time_edges(m: MessageView, t: int)
    ensures
        m.not_before is None && m.expiration_time is None ==> time_ok(m, t),
        m.expiration_time matches Some(e) && rfc3339_instant(e) == Some(t) ==> !time_ok(m, t),
        m.not_before matches Some(b) && rfc3339_instant(b) == Some(t) ==> (time_ok(m, t)
            <==> (m.expiration_time matches Some(e) ==> rfc3339_instant(e) matches Some(i) && t
            < i)),
{
}

/// Whether `sig` signs `m` for its address and `m` is valid in time at `now`.
pub fn verify_and_check_time(m: &Message, sig: &[u8; 65], now: i128) -> (r: bool)
    ensures
        r == (signed_by(m@, sig@) && time_ok(m@, now as int)),
{
    verify_signature(m, sig) && valid_at(m, now)
}

/// The number of characters in a nonce from `generate_nonce`.
pub const NONCE_LENGTH: usize = 11;

/// Relies on rand's `Alphanumeric` distribution, sampled from `thread_rng`:
/// one byte of `A-Z`, `a-z` or `0-9`.
#[verifier::external_body]
fn sample_alphanumeric() -> (r: u8)
    ensures
        (48 <= r <= 57) || (65 <= r <= 90) || (97 <= r <= 122),
{
    rand::Rng::sample(&mut rand::thread_rng(), rand::distributions::Alphanumeric)
}

/// A random nonce of `n` characters, each of `A-Z`, `a-z` or `0-9`.
pub fn generate_nonce_of(n: usize) -> (r: String)
    ensures
        r@.len() == n,
        forall|i: int| 0 <= i < n ==> is_alphanumeric(#[trigger] r@[i]),
{
    let mut cs: Vec<char> = Vec::new();
    let mut i: usize = 0;
    while i < n
        invariant
            i <= n,
            cs@.len() == i,
            forall|j: int| 0 <= j < i ==> is_alphanumeric(#[trigger] cs@[j]),
        decreases n - i,
    {
        let b = sample_alphanumeric();
        let c = b as char;
        cs.push(c);
        i += 1;
    }
    crate::text::string_of(&cs)
}

/// A random nonce of `NONCE_LENGTH` alphanumeric characters.
pub fn generate_nonce() -> (r: String)
    ensures
        r@.len() == NONCE_LENGTH,
        forall|i: int| 0 <= i < NONCE_LENGTH ==> is_alphanumeric(#[trigger] r@[i]),
{
    generate_nonce_of(NONCE_LENGTH)
}

} // verus!
