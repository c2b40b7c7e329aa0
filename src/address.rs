//! Account addresses: 20 bytes, written as hex text with the EIP-55 mixed-case
//! checksum.

use vstd::prelude::*;
use crate::message::SiweError;

verus! {

/// The value of a hex digit of either case, or -1 for any other character.
pub open spec fn hex_val(c: char) -> int {
    if '0' <= c && c <= '9' {
        c as int - '0' as int
    } else if 'a' <= c && c <= 'f' {
        c as int - 'a' as int + 10
    } else if 'A' <= c && c <= 'F' {
        c as int - 'A' as int + 10
    } else {
        -1
    }
}

pub open spec fn all_hex(s: Seq<char>) -> bool {
    forall|i: int| 0 <= i < s.len() ==> hex_val(#[trigger] s[i]) >= 0
}

/// The bytes that the hex digits `h` stand for, two digits a byte, high
/// nibble first.
pub open spec fn hex_bytes(h: Seq<char>) -> Seq<u8> {
    Seq::new(
        (h.len() / 2) as nat,
        |i: int| (hex_val(h[2 * i]) * 16 + hex_val(h[2 * i + 1])) as u8,
    )
}

pub open spec fn has_hex_prefix(s: Seq<char>) -> bool {
    s.len() >= 2 && s[0] == '0' && s[1] == 'x'
}

/// `s` without a leading "0x", if it has one.
pub open spec fn strip_hex_prefix(s: Seq<char>) -> Seq<char> {
    if has_hex_prefix(s) {
        s.subrange(2, s.len() as int)
    } else {
        s
    }
}

/// The 20 bytes that an address text stands for: an optional "0x", then
/// exactly 40 hex digits of either case.
pub open spec fn address_of_text(s: Seq<char>) -> Option<Seq<u8>> {
    let h = strip_hex_prefix(s);
    if h.len() == 40 && all_hex(h) {
        Some(hex_bytes(h))
    } else {
        None
    }
}

/// What every checksummed text of `a` looks like: "0x", then 40 hex digits
/// that stand for `a`, each in the case that the checksum picks.
pub open spec fn checksum_shape(t: Seq<char>, a: Seq<u8>) -> bool {
    &&& t.len() == 42
    &&& has_hex_prefix(t)
    &&& all_hex(t.subrange(2, 42))
    &&& hex_bytes(t.subrange(2, 42)) == a
}

/// The EIP-55 checksummed text of the address `a`.
pub uninterp spec fn eip55_of(a: Seq<u8>) -> Seq<char>;

/// Relies on `FromHex` for `[u8; 20]` of the hex crate: it succeeds exactly on
/// 40 hex digits of either case and reads two digits a byte, high nibble first.
#[verifier::external_body]
fn decode_hex20(s: &str) -> (r: Option<[u8; 20]>)
    ensures
        r.is_some() <==> (s@.len() == 40 && all_hex(s@)),
        r matches Some(b) ==> b@ == hex_bytes(s@),
{
    <[u8; 20] as hex::FromHex>::from_hex(s).ok()
}

/// Relies on `FromHex` for `[u8; 65]` of the hex crate: it succeeds exactly on
/// 130 hex digits of either case and reads two digits a byte, high nibble first.
#[verifier::external_body]
fn decode_hex65(s: &str) -> (r: Option<[u8; 65]>)
    ensures
        r.is_some() <==> (s@.len() == 130 && all_hex(s@)),
        r matches Some(b) ==> b@ == hex_bytes(s@),
{
    <[u8; 65] as hex::FromHex>::from_hex(s).ok()
}

/// Relies on `ethers_core::utils::to_checksum` with no chain id: "0x" and the
/// lower-case hex digits of the address, each letter made upper case where the
/// Keccak-256 hash of those digits says so.
#[verifier::external_body]
fn checksum_text(a: &[u8; 20]) -> (r: String)
    ensures
        r@ == eip55_of(a@),
        checksum_shape(r@, a@),
{
    ethers_core::utils::to_checksum(&ethers_core::types::H160(*a), None)
}

/// The hex digits that follow an optional "0x" in `s`.
fn hex_digits(s: &str) -> (r: &str)
    ensures
        r@ == strip_hex_prefix(s@),
{
    let n = s.unicode_len();
    if n >= 2 && s.get_char(0) == '0' && s.get_char(1) == 'x' {
        s.substring_char(2, n)
    } else {
        s
    }
}

/// Reads an address: an optional "0x", then exactly 40 hex digits of either
/// case. The checksum casing is not checked.
pub fn from_hex_address(s: &str) -> (r: Result<[u8; 20], SiweError>)
    ensures
        match r {
            Ok(b) => address_of_text(s@) == Some(b@),
            Err(e) => address_of_text(s@) is None && e is MalformedAddress,
        },
{
    match decode_hex20(hex_digits(s)) {
        Some(b) => Ok(b),
        None => Err(SiweError::MalformedAddress),
    }
}

/// Reads a signature: an optional "0x", then exactly 130 hex digits of either
/// case, for `r`, `s` and `v` in that order.
pub fn from_hex_signature(s: &str) -> (r: Result<[u8; 65], SiweError>)
    ensures
        r is Ok <==> (strip_hex_prefix(s@).len() == 130 && all_hex(strip_hex_prefix(s@))),
        r matches Ok(b) ==> b@ == hex_bytes(strip_hex_prefix(s@)),
        r matches Err(e) ==> e is InvalidSignature,
{
    match decode_hex65(hex_digits(s)) {
        Some(b) => Ok(b),
        None => Err(SiweError::InvalidSignature),
    }
}

/// The EIP-55 checksummed text of an address; it reads back to the same bytes.
pub fn to_checksummed(a: &[u8; 20]) -> (r: String)
    ensures
        r@ == eip55_of(a@),
        has_hex_prefix(r@),
        address_of_text(r@) == Some(a@),
{
    let r = checksum_text(a);
    proof {
        lemma_checksum_reads_back(r@, a@);
    }
    r
}

/// A checksummed text reads back to the bytes it was made from, so
/// checksumming those bytes again gives the same text.
pub proof fn lemma_checksum_reads_back(t: Seq<char>, a: Seq<u8>)
    requires
        checksum_shape(t, a),
    ensures
        address_of_text(t) == Some(a),
{
    assert(strip_hex_prefix(t) =~= t.subrange(2, 42));
}

/// Checksumming is idempotent: checksumming the bytes read back from a
/// checksummed text gives that text again.
pub proof fn lemma_checksum_idempotent(a: Seq<u8>)
    requires
        checksum_shape(eip55_of(a), a),
    ensures
        address_of_text(eip55_of(a)) == Some(a),
        eip55_of(address_of_text(eip55_of(a))->0) == eip55_of(a),
{
    lemma_checksum_reads_back(eip55_of(a), a);
}

} // verus!
