//! The sign-in message: its fields, their syntax, and the outside validators
//! that decide what an authority, a URI and a timestamp are.

use vstd::prelude::*;
use crate::text::no_newline;

verus! {

/// The message version; "1" is the only one.
#[derive(Clone, Copy, Debug, PartialEq, Eq, Structural)]
pub enum Version {
    V1,
}

/// A sign-in message whose fields are checked (see `wf`).
#[derive(Clone, Debug)]
pub struct Message {
    pub domain: String,
    pub address: [u8; 20],
    pub statement: Option<String>,
    pub uri: String,
    pub version: Version,
    pub chain_id: u64,
    pub nonce: String,
    pub issued_at: String,
    pub expiration_time: Option<String>,
    pub not_before: Option<String>,
    pub request_id: Option<String>,
    pub resources: Vec<String>,
}

/// The mathematical value of a message.
pub struct MessageView {
    pub domain: Seq<char>,
    pub address: Seq<u8>,
    pub statement: Option<Seq<char>>,
    pub uri: Seq<char>,
    pub chain_id: u64,
    pub nonce: Seq<char>,
    pub issued_at: Seq<char>,
    pub expiration_time: Option<Seq<char>>,
    pub not_before: Option<Seq<char>>,
    pub request_id: Option<Seq<char>>,
    pub resources: Seq<Seq<char>>,
}

pub open spec fn opt_view(o: Option<String>) -> Option<Seq<char>> {
    match o {
        Some(s) => Some(s@),
        None => None,
    }
}

pub open spec fn strings_view(v: Seq<String>) -> Seq<Seq<char>> {
    v.map_values(|s: String| s@)
}

impl View for Message {
    type V = MessageView;

    open spec fn view(&self) -> MessageView {
        MessageView {
            domain: self.domain@,
            address: self.address@,
            statement: opt_view(self.statement),
            uri: self.uri@,
            chain_id: self.chain_id,
            nonce: self.nonce@,
            issued_at: self.issued_at@,
            expiration_time: opt_view(self.expiration_time),
            not_before: opt_view(self.not_before),
            request_id: opt_view(self.request_id),
            resources: strings_view(self.resources@),
        }
    }
}

/// Whether `s` is an RFC 3986 authority (host and optional port).
pub uninterp spec fn is_authority(s: Seq<char>) -> bool;

/// Whether `s` is an absolute RFC 3986 URI.
pub uninterp spec fn is_uri(s: Seq<char>) -> bool;

/// The instant, in nanoseconds since the Unix epoch, that the RFC 3339
/// timestamp `s` names, or `None` where `s` is not one.
pub uninterp spec fn rfc3339_instant(s: Seq<char>) -> Option<int>;

/// Relies on `FromStr` for `http::uri::Authority`: whether it accepts `s`.
#[verifier::external_body]
fn check_authority(s: &str) -> (r: bool)
    ensures
        r == is_authority(s@),
{
    <http::uri::Authority as std::str::FromStr>::from_str(s).is_ok()
}

/// Relies on `FromStr` for `iri_string::types::UriString`: whether it accepts `s`.
#[verifier::external_body]
fn check_uri(s: &str) -> (r: bool)
    ensures
        r == is_uri(s@),
{
    <iri_string::types::UriString as std::str::FromStr>::from_str(s).is_ok()
}

/// Relies on `FromStr` for `siwe::TimeStamp` (RFC 3339 through the time
/// crate), and on `unix_timestamp_nanos` of the instant it reads.
#[verifier::external_body]
pub(crate) fn timestamp_instant(s: &str) -> (r: Option<i128>)
    ensures
        r matches Some(t) ==> rfc3339_instant(s@) == Some(t as int),
        r is None ==> rfc3339_instant(s@) is None,
{
    match <siwe::TimeStamp as std::str::FromStr>::from_str(s) {
        Ok(t) => Some(t.as_ref().unix_timestamp_nanos()),
        Err(_) => None,
    }
}

pub open spec fn is_alphanumeric(c: char) -> bool {
    ('0' <= c && c <= '9') || ('a' <= c && c <= 'z') || ('A' <= c && c <= 'Z')
}

pub open spec fn all_alphanumeric(s: Seq<char>) -> bool {
    forall|i: int| 0 <= i < s.len() ==> is_alphanumeric(#[trigger] s[i])
}

pub open spec fn valid_domain(s: Seq<char>) -> bool {
    is_authority(s) && no_newline(s)
}

pub open spec fn valid_uri(s: Seq<char>) -> bool {
    is_uri(s) && no_newline(s)
}

pub open spec fn valid_nonce(s: Seq<char>) -> bool {
    s.len() > 0 && all_alphanumeric(s)
}

pub open spec fn valid_timestamp(s: Seq<char>) -> bool {
    rfc3339_instant(s) is Some && no_newline(s)
}

pub open spec fn valid_opt_timestamp(o: Option<Seq<char>>) -> bool {
    o matches Some(s) ==> valid_timestamp(s)
}

pub open spec fn valid_statement(o: Option<Seq<char>>) -> bool {
    o matches Some(s) ==> s.len() > 0 && no_newline(s)
}

pub open spec fn valid_request_id(o: Option<Seq<char>>) -> bool {
    o matches Some(s) ==> no_newline(s)
}

pub open spec fn valid_resources(rs: Seq<Seq<char>>) -> bool {
    forall|i: int| 0 <= i < rs.len() ==> valid_uri(#[trigger] rs[i])
}

/// The syntactic constraints of every field: what the canonical text can carry
/// and read back unchanged.
pub open spec fn valid_message(m: MessageView) -> bool {
    &&& valid_domain(m.domain)
    &&& m.address.len() == 20
    &&& valid_statement(m.statement)
    &&& valid_uri(m.uri)
    &&& valid_nonce(m.nonce)
    &&& valid_timestamp(m.issued_at)
    &&& valid_opt_timestamp(m.expiration_time)
    &&& valid_opt_timestamp(m.not_before)
    &&& valid_request_id(m.request_id)
    &&& valid_resources(m.resources)
}

impl Message {
    pub open spec fn wf(&self) -> bool {
        valid_message(self@)
    }
}

/// Whether `s` holds no line feed.
pub fn has_no_newline(s: &str) -> (r: bool)
    ensures
        r == no_newline(s@),
{
    let n = s.unicode_len();
    let mut i: usize = 0;
    while i < n
        invariant
            n == s@.len(),
            i <= n,
            forall|j: int| 0 <= j < i ==> s@[j] != '\n',
        decreases n - i,
    {
        if s.get_char(i) == '\n' {
            return false;
        }
        i += 1;
    }
    true
}

pub fn check_domain(s: &str) -> (r: bool)
    ensures
        r == valid_domain(s@),
{
    has_no_newline(s) && check_authority(s)
}

pub fn check_uri_field(s: &str) -> (r: bool)
    ensures
        r == valid_uri(s@),
{
    has_no_newline(s) && check_uri(s)
}

pub fn check_nonce(s: &str) -> (r: bool)
    ensures
        r == valid_nonce(s@),
{
    let n = s.unicode_len();
    if n == 0 {
        return false;
    }
    let mut i: usize = 0;
    while i < n
        invariant
            n == s@.len(),
            i <= n,
            forall|j: int| 0 <= j < i ==> is_alphanumeric(#[trigger] s@[j]),
        decreases n - i,
    {
        let c = s.get_char(i);
        if !(('0' <= c && c <= '9') || ('a' <= c && c <= 'z') || ('A' <= c && c <= 'Z')) {
            return false;
        }
        i += 1;
    }
    true
}

pub fn check_timestamp(s: &str) -> (r: bool)
    ensures
        r == valid_timestamp(s@),
{
    has_no_newline(s) && timestamp_instant(s).is_some()
}

} // verus!

verus! {

/// What can go wrong when reading, writing or checking a message.
#[derive(Clone, Debug)]
pub enum SiweError {
    /// The text does not follow the grammar, or a field breaks its syntax.
    MalformedMessage(String),
    /// An address is not 40 hex digits.
    MalformedAddress,
    /// A signature is not 130 hex digits, or no signer can be recovered.
    InvalidSignature,
    /// A record cannot be written as canonical text.
    Serialization(String),
    /// A message failed its signature or its time window.
    AuthenticationFailed,
}

} // verus!
