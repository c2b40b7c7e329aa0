//! The plain record a host hands in and takes back: every field a string or a
//! number, with the address as text.

use vstd::prelude::*;
use crate::address::{
    address_of_text, all_hex, eip55_of, from_hex_address, from_hex_signature, hex_bytes,
    strip_hex_prefix, to_checksummed,
};
use crate::grammar::{parse_spec, serialize_spec};
use crate::message::{
    check_domain, check_nonce, check_timestamp, check_uri_field, has_no_newline, opt_view,
    strings_view, valid_domain, valid_nonce, valid_opt_timestamp, valid_request_id,
    valid_resources, valid_statement, valid_timestamp, valid_uri, Message, MessageView,
    SiweError, Version,
};
use crate::text::same_text;
use crate::verify::{signed_by, time_ok, valid_at, verify_signature};

verus! {

/// A message as a plain record.
#[derive(Clone, Debug)]
pub struct Parsed {
    pub domain: String,
    pub address: String,
    pub statement: Option<String>,
    pub uri: String,
    pub version: String,
    pub chain_id: u64,
    pub nonce: String,
    pub issued_at: String,
    pub expiration_time: Option<String>,
    pub not_before: Option<String>,
    pub request_id: Option<String>,
    pub resources: Vec<String>,
}

pub struct ParsedView {
    pub domain: Seq<char>,
    pub address: Seq<char>,
    pub statement: Option<Seq<char>>,
    pub uri: Seq<char>,
    pub version: Seq<char>,
    pub chain_id: u64,
    pub nonce: Seq<char>,
    pub issued_at: Seq<char>,
    pub expiration_time: Option<Seq<char>>,
    pub not_before: Option<Seq<char>>,
    pub request_id: Option<Seq<char>>,
    pub resources: Seq<Seq<char>>,
}

impl View for Parsed {
    type V = ParsedView;

    open spec fn view(&self) -> ParsedView {
        ParsedView {
            domain: self.domain@,
            address: self.address@,
            statement: opt_view(self.statement),
            uri: self.uri@,
            version: self.version@,
            chain_id: self.chain_id,
            nonce: self.nonce@,
            issued_at: self.issued_at@,
            expiration_time: opt_view(self.expiration_time),
            not_before: opt_view(self.not_before),
            request_id: opt_view(self.request_id),
            resources: strings_view(self.resources@),
        }
    }
}

/// Whether every field of the record has its syntax, so that it stands for a
/// message.
pub open spec fn record_valid(p: ParsedView) -> bool {
    &&& valid_domain(p.domain)
    &&& address_of_text(p.address) is Some
    &&& valid_statement(p.statement)
    &&& valid_uri(p.uri)
    &&& p.version == "1"@
    &&& valid_nonce(p.nonce)
    &&& valid_timestamp(p.issued_at)
    &&& valid_opt_timestamp(p.expiration_time)
    &&& valid_opt_timestamp(p.not_before)
    &&& valid_request_id(p.request_id)
    &&& valid_resources(p.resources)
}

/// The message that a record stands for.
pub open spec fn message_of(p: ParsedView) -> MessageView {
    MessageView {
        domain: p.domain,
        address: address_of_text(p.address)->0,
        statement: p.statement,
        uri: p.uri,
        chain_id: p.chain_id,
        nonce: p.nonce,
        issued_at: p.issued_at,
        expiration_time: p.expiration_time,
        not_before: p.not_before,
        request_id: p.request_id,
        resources: p.resources,
    }
}

/// The record of a message, with the address in its checksummed form.
pub open spec fn parsed_of(m: MessageView) -> ParsedView {
    ParsedView {
        domain: m.domain,
        address: eip55_of(m.address),
        statement: m.statement,
        uri: m.uri,
        version: "1"@,
        chain_id: m.chain_id,
        nonce: m.nonce,
        issued_at: m.issued_at,
        expiration_time: m.expiration_time,
        not_before: m.not_before,
        request_id: m.request_id,
        resources: m.resources,
    }
}

/// Whether `s` is 130 hex digits after an optional "0x".
pub open spec fn signature_text_ok(s: Seq<char>) -> bool {
    strip_hex_prefix(s).len() == 130 && all_hex(strip_hex_prefix(s))
}

/// The 65 bytes that a signature text stands for.
pub open spec fn signature_bytes(s: Seq<char>) -> Seq<u8> {
    hex_bytes(strip_hex_prefix(s))
}

fn clone_opt(o: &Option<String>) -> (r: Option<String>)
    ensures
        opt_view(r) == opt_view(*o),
{
    match o {
        Some(s) => Some(s.clone()),
        None => None,
    }
}

fn clone_strings(v: &Vec<String>) -> (r: Vec<String>)
    ensures
        strings_view(r@) == strings_view(v@),
{
    let mut r: Vec<String> = Vec::new();
    let mut i: usize = 0;
    while i < v.len()
        invariant
            i <= v.len(),
            strings_view(r@) == strings_view(v@.subrange(0, i as int)),
        decreases v.len() - i,
    {
        let ghost before = strings_view(r@);
        let c = v[i].clone();
        assert(c@ == v@[i as int]@);
        r.push(c);
        proof {
            assert(strings_view(r@) =~= before.push(c@));
            assert(strings_view(v@.subrange(0, i as int + 1)) =~= strings_view(
                v@.subrange(0, i as int),
            ).push(v@[i as int]@));
        }
        i += 1;
    }
    proof {
        assert(v@.subrange(0, v@.len() as int) =~= v@);
    }
    r
}

fn bad(reason: &str) -> (e: SiweError)
    ensures
        e is Serialization,
{
    SiweError::Serialization(reason.to_owned())
}

fn check_opt_timestamp(o: &Option<String>) -> (r: bool)
    ensures
        r == valid_opt_timestamp(opt_view(*o)),
{
    match o {
        Some(s) => check_timestamp(s.as_str()),
        None => true,
    }
}

impl Parsed {
    /// The checked message that the record stands for; it fails with
    /// `Serialization` exactly where a field breaks its syntax.
    pub fn to_eip4361_message(&self) -> (r: Result<Message, SiweError>)
        ensures
            match r {
                Ok(m) => record_valid(self@) && m@ == message_of(self@),
                Err(e) => !record_valid(self@) && e is Serialization,
            },
    {
        let mut i: usize = 0;
        while i < self.resources.len()
            invariant
                i <= self.resources.len(),
                forall|j: int| 0 <= j < i ==> valid_uri(#[trigger] self.resources@[j]@),
            decreases self.resources.len() - i,
        {
            if !check_uri_field(self.resources[i].as_str()) {
                assert(!valid_uri(strings_view(self.resources@)[i as int]));
                return Err(bad("Failed to parse resource"));
            }
            i += 1;
        }
        assert(valid_resources(self@.resources));
        if !check_domain(self.domain.as_str()) {
            return Err(bad("Bad domain"));
        }
        let address = match from_hex_address(self.address.as_str()) {
            Ok(a) => a,
            Err(_) => return Err(bad("Bad address")),
        };
        match &self.statement {
            Some(s) => {
                if s.as_str().unicode_len() == 0 || !has_no_newline(s.as_str()) {
                    return Err(bad("Bad statement"));
                }
            },
            None => {},
        }
        if !check_uri_field(self.uri.as_str()) {
            return Err(bad("Bad uri"));
        }
        if !same_text(self.version.as_str(), "1") {
            return Err(bad("Bad version"));
        }
        if !check_nonce(self.nonce.as_str()) {
            return Err(bad("Bad nonce"));
        }
        if !check_timestamp(self.issued_at.as_str()) {
            return Err(bad("Failed to convert issued at"));
        }
        if !check_opt_timestamp(&self.expiration_time) {
            return Err(bad("Failed to convert expiration time"));
        }
        if !check_opt_timestamp(&self.not_before) {
            return Err(bad("Failed to convert not before"));
        }
        match &self.request_id {
            Some(s) => {
                if !has_no_newline(s.as_str()) {
                    return Err(bad("Bad request id"));
                }
            },
            None => {},
        }
        let m = Message {
            domain: self.domain.clone(),
            address,
            statement: clone_opt(&self.statement),
            uri: self.uri.clone(),
            version: Version::V1,
            chain_id: self.chain_id,
            nonce: self.nonce.clone(),
            issued_at: self.issued_at.clone(),
            expiration_time: clone_opt(&self.expiration_time),
            not_before: clone_opt(&self.not_before),
            request_id: clone_opt(&self.request_id),
            resources: clone_strings(&self.resources),
        };
        Ok(m)
    }
}

/// The record of a message, with the address written in checksummed form.
pub fn message_to_parsed(m: &Message) -> (r: Parsed)
    ensures
        r@ == parsed_of(m@),
{
    Parsed {
        domain: m.domain.clone(),
        address: to_checksummed(&m.address),
        statement: clone_opt(&m.statement),
        uri: m.uri.clone(),
        version: "1".to_owned(),
        chain_id: m.chain_id,
        nonce: m.nonce.clone(),
        issued_at: m.issued_at.clone(),
        expiration_time: clone_opt(&m.expiration_time),
        not_before: clone_opt(&m.not_before),
        request_id: clone_opt(&m.request_id),
        resources: clone_strings(&m.resources),
    }
}

/// Reads canonical text into a record; it fails with `MalformedMessage`
/// exactly where the text does not follow the grammar.
pub fn parse(message: &str) -> (r: Result<Parsed, SiweError>)
    ensures
        match r {
            Ok(p) => parse_spec(message@) matches Some(m) && p@ == parsed_of(m),
            Err(e) => parse_spec(message@) is None && e is MalformedMessage,
        },
{
    match crate::parse::parse(message) {
        Ok(m) => Ok(message_to_parsed(&m)),
        Err(e) => Err(e),
    }
}

/// The canonical text of a record; it fails with `Serialization` exactly
/// where a field breaks its syntax.
pub fn to_str(message: &Parsed) -> (r: Result<String, SiweError>)
    ensures
        match r {
            Ok(s) => record_valid(message@) && s@ == serialize_spec(message_of(message@)),
            Err(e) => !record_valid(message@) && e is Serialization,
        },
{
    match message.to_eip4361_message() {
        Ok(m) => Ok(m.to_text()),
        Err(e) => Err(e),
    }
}

/// Whether `sig` (hex, with an optional "0x") is a signature of the record's
/// message by the record's address. Every failure gives `false`.
pub fn validate_sig(message: &Parsed, sig: &str) -> (r: bool)
    ensures
        r == (record_valid(message@) && signature_text_ok(sig@) && signed_by(
            message_of(message@),
            signature_bytes(sig@),
        )),
{
    match message.to_eip4361_message() {
        Ok(m) => match from_hex_signature(sig) {
            Ok(s) => verify_signature(&m, &s),
            Err(_) => false,
        },
        Err(_) => false,
    }
}

/// Whether `sig` is a signature of the record's message by the record's
/// address, and the message is valid in time at `now` (nanoseconds since the
/// Unix epoch). Every failure gives `false`.
pub fn validate(message: &Parsed, sig: &str, now: i128) -> (r: bool)
    ensures
        r == (record_valid(message@) && signature_text_ok(sig@) && signed_by(
            message_of(message@),
            signature_bytes(sig@),
        ) && time_ok(message_of(message@), now as int)),
{
    match message.to_eip4361_message() {
        Ok(m) => match from_hex_signature(sig) {
            Ok(s) => verify_signature(&m, &s) && valid_at(&m, now),
            Err(_) => false,
        },
        Err(_) => false,
    }
}

/// Reads canonical text, and hands back its record only where `sig` signs it
/// for its address and it is valid in time at `now`. Every failure is the one
/// `AuthenticationFailed`.
pub fn parse_if_valid(message: &str, sig: &str, now: i128) -> (r: Result<Parsed, SiweError>)
    ensures
        match r {
            Ok(p) => parse_spec(message@) matches Some(m) && signature_text_ok(sig@) && signed_by(
                m,
                signature_bytes(sig@),
            ) && time_ok(m, now as int) && p@ == parsed_of(m),
            Err(e) => e is AuthenticationFailed && !(parse_spec(message@) matches Some(m)
                && signature_text_ok(sig@) && signed_by(m, signature_bytes(sig@)) && time_ok(
                m,
                now as int,
            )),
        },
{
    let s = match from_hex_signature(sig) {
        Ok(s) => s,
        Err(_) => return Err(SiweError::AuthenticationFailed),
    };
    match crate::parse::parse(message) {
        Ok(m) => {
            if verify_signature(&m, &s) && valid_at(&m, now) {
                Ok(message_to_parsed(&m))
            } else {
                Err(SiweError::AuthenticationFailed)
            }
        },
        Err(_) => Err(SiweError::AuthenticationFailed),
    }
}

} // verus!
