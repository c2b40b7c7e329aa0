//! The canonical text of a message: how a message is written as lines, how
//! lines are read back into a message, and the laws that tie the two.

use vstd::prelude::*;
use crate::address::{address_of_text, eip55_of, has_hex_prefix};
use crate::message::{
    valid_domain, valid_nonce, valid_opt_timestamp, valid_request_id, valid_statement,
    valid_timestamp, valid_uri, MessageView,
};
use crate::text::{join_lines, split_lines};

verus! {

pub open spec fn preamble() -> Seq<char> {
    " wants you to sign in with your Ethereum account:"@
}

pub open spec fn uri_tag() -> Seq<char> {
    "URI: "@
}

pub open spec fn version_line() -> Seq<char> {
    "Version: 1"@
}

pub open spec fn chain_tag() -> Seq<char> {
    "Chain ID: "@
}

pub open spec fn nonce_tag() -> Seq<char> {
    "Nonce: "@
}

pub open spec fn issued_tag() -> Seq<char> {
    "Issued At: "@
}

pub open spec fn expiration_tag() -> Seq<char> {
    "Expiration Time: "@
}

pub open spec fn not_before_tag() -> Seq<char> {
    "Not Before: "@
}

pub open spec fn request_tag() -> Seq<char> {
    "Request ID: "@
}

pub open spec fn resources_header() -> Seq<char> {
    "Resources:"@
}

pub open spec fn resource_tag() -> Seq<char> {
    "- "@
}

pub open spec fn digit_chars() -> Seq<char> {
    seq!['0', '1', '2', '3', '4', '5', '6', '7', '8', '9']
}

/// The decimal digits of `n`, with no leading zero.
pub open spec fn decimal(n: nat) -> Seq<char>
    decreases n,
{
    if n < 10 {
        seq![digit_chars()[n as int]]
    } else {
        decimal(n / 10).push(digit_chars()[(n % 10) as int])
    }
}

pub open spec fn is_digit(c: char) -> bool {
    '0' <= c && c <= '9'
}

/// The number that the decimal digits `s` stand for.
pub open spec fn digits_value(s: Seq<char>) -> nat
    decreases s.len(),
{
    if s.len() == 0 {
        0
    } else {
        digits_value(s.drop_last()) * 10 + (s.last() as nat - '0' as nat) as nat
    }
}

/// Decimal digits with no leading zero (but for "0" itself).
pub open spec fn canonical_decimal(s: Seq<char>) -> bool {
    &&& s.len() > 0
    &&& forall|i: int| 0 <= i < s.len() ==> is_digit(#[trigger] s[i])
    &&& (s.len() == 1 || s[0] != '0')
}

/// The chain id that the text `s` writes, if it writes one that fits in 64 bits.
pub open spec fn parse_decimal(s: Seq<char>) -> Option<u64> {
    if canonical_decimal(s) && digits_value(s) <= u64::MAX {
        Some(digits_value(s) as u64)
    } else {
        None
    }
}

pub open spec fn strip_prefix(l: Seq<char>, tag: Seq<char>) -> Option<Seq<char>> {
    if tag.len() <= l.len() && l.subrange(0, tag.len() as int) == tag {
        Some(l.subrange(tag.len() as int, l.len() as int))
    } else {
        None
    }
}

pub open spec fn strip_suffix(l: Seq<char>, suffix: Seq<char>) -> Option<Seq<char>> {
    if suffix.len() <= l.len() && l.subrange(l.len() - suffix.len(), l.len() as int) == suffix {
        Some(l.subrange(0, l.len() - suffix.len()))
    } else {
        None
    }
}

pub open spec fn statement_lines(o: Option<Seq<char>>) -> Seq<Seq<char>> {
    match o {
        Some(s) => seq![s, Seq::<char>::empty()],
        None => seq![Seq::<char>::empty()],
    }
}

pub open spec fn optional_line(tag: Seq<char>, o: Option<Seq<char>>) -> Seq<Seq<char>> {
    match o {
        Some(v) => seq![tag + v],
        None => Seq::empty(),
    }
}

pub open spec fn resource_lines(rs: Seq<Seq<char>>) -> Seq<Seq<char>> {
    if rs.len() == 0 {
        Seq::empty()
    } else {
        seq![resources_header()] + rs.map_values(|r: Seq<char>| resource_tag() + r)
    }
}

/// The lines of the text of `m`, with `address_line` standing for the address.
pub open spec fn message_lines(m: MessageView, address_line: Seq<char>) -> Seq<Seq<char>> {
    seq![m.domain + preamble(), address_line, Seq::<char>::empty()]
        + statement_lines(m.statement)
        + seq![
        uri_tag() + m.uri,
        version_line(),
        chain_tag() + decimal(m.chain_id as nat),
        nonce_tag() + m.nonce,
        issued_tag() + m.issued_at,
    ] + optional_line(expiration_tag(), m.expiration_time)
        + optional_line(not_before_tag(), m.not_before)
        + optional_line(request_tag(), m.request_id)
        + resource_lines(m.resources)
}

/// The canonical text of `m`: its lines joined by line feeds, with the address
/// in its EIP-55 checksummed form.
pub open spec fn serialize_spec(m: MessageView) -> Seq<char> {
    join_lines(message_lines(m, eip55_of(m.address)))
}

pub open spec fn parse_header(l: Seq<char>) -> Option<Seq<char>> {
    match strip_suffix(l, preamble()) {
        Some(d) => if valid_domain(d) {
            Some(d)
        } else {
            None
        },
        None => None,
    }
}

pub open spec fn parse_address_line(l: Seq<char>) -> Option<Seq<u8>> {
    if has_hex_prefix(l) {
        address_of_text(l)
    } else {
        None
    }
}

/// An optional tagged line at the head of `rest`: its value, and the lines
/// after it.
pub open spec fn take_optional(rest: Seq<Seq<char>>, tag: Seq<char>) -> (Option<Seq<char>>, Seq<Seq<char>>) {
    if rest.len() > 0 && strip_prefix(rest[0], tag) is Some {
        (strip_prefix(rest[0], tag), rest.drop_first())
    } else {
        (None, rest)
    }
}

pub open spec fn is_resource_line(l: Seq<char>) -> bool {
    strip_prefix(l, resource_tag()) matches Some(r) && valid_uri(r)
}

/// The resource list that closes a message: nothing, or a "Resources:" line
/// and at least one "- " line.
pub open spec fn parse_resources(rest: Seq<Seq<char>>) -> Option<Seq<Seq<char>>> {
    if rest.len() == 0 {
        Some(Seq::empty())
    } else if rest[0] == resources_header() && rest.len() >= 2 && (forall|j: int|
        1 <= j < rest.len() ==> is_resource_line(#[trigger] rest[j])) {
        Some(rest.drop_first().map_values(|l: Seq<char>| strip_prefix(l, resource_tag())->0))
    } else {
        None
    }
}

pub open spec fn field(l: Seq<char>, tag: Seq<char>) -> Seq<char> {
    strip_prefix(l, tag)->0
}

/// Where the field lines start: after the blank line that follows the
/// statement, or after the second blank line where there is no statement.
pub open spec fn fields_start(ls: Seq<Seq<char>>) -> int {
    if ls[3].len() > 0 {
        5
    } else {
        4
    }
}

/// The lines that follow "Issued At:".
pub open spec fn tail_lines(ls: Seq<Seq<char>>) -> Seq<Seq<char>> {
    ls.subrange(fields_start(ls) + 5, ls.len() as int)
}

pub open spec fn head_ok(ls: Seq<Seq<char>>) -> bool {
    &&& ls.len() >= 4
    &&& parse_header(ls[0]) is Some
    &&& parse_address_line(ls[1]) is Some
    &&& ls[2].len() == 0
    &&& (ls[3].len() > 0 ==> ls.len() >= 5 && ls[4].len() == 0)
    &&& valid_statement(if ls[3].len() > 0 { Some(ls[3]) } else { None })
    &&& ls.len() >= fields_start(ls) + 5
}

pub open spec fn fields_ok(ls: Seq<Seq<char>>) -> bool {
    let k = fields_start(ls);
    &&& strip_prefix(ls[k], uri_tag()) matches Some(u) && valid_uri(u)
    &&& ls[k + 1] == version_line()
    &&& strip_prefix(ls[k + 2], chain_tag()) matches Some(c) && parse_decimal(c) is Some
    &&& strip_prefix(ls[k + 3], nonce_tag()) matches Some(n) && valid_nonce(n)
    &&& strip_prefix(ls[k + 4], issued_tag()) matches Some(t) && valid_timestamp(t)
}

pub open spec fn tail_ok(rest: Seq<Seq<char>>) -> bool {
    let (exp, r1) = take_optional(rest, expiration_tag());
    let (nbf, r2) = take_optional(r1, not_before_tag());
    let (rid, r3) = take_optional(r2, request_tag());
    &&& valid_opt_timestamp(exp)
    &&& valid_opt_timestamp(nbf)
    &&& valid_request_id(rid)
    &&& parse_resources(r3) is Some
}

/// The message that the lines `ls` write, if they follow the grammar.
pub open spec fn parse_lines(ls: Seq<Seq<char>>) -> Option<MessageView> {
    if head_ok(ls) && fields_ok(ls) && tail_ok(tail_lines(ls)) {
        let k = fields_start(ls);
        let (exp, r1) = take_optional(tail_lines(ls), expiration_tag());
        let (nbf, r2) = take_optional(r1, not_before_tag());
        let (rid, r3) = take_optional(r2, request_tag());
        Some(
            MessageView {
                domain: parse_header(ls[0])->0,
                address: parse_address_line(ls[1])->0,
                statement: if ls[3].len() > 0 {
                    Some(ls[3])
                } else {
                    None
                },
                uri: field(ls[k], uri_tag()),
                chain_id: parse_decimal(field(ls[k + 2], chain_tag()))->0,
                nonce: field(ls[k + 3], nonce_tag()),
                issued_at: field(ls[k + 4], issued_tag()),
                expiration_time: exp,
                not_before: nbf,
                request_id: rid,
                resources: parse_resources(r3)->0,
            },
        )
    } else {
        None
    }
}

/// The message that the text `t` writes, if it follows the grammar.
pub open spec fn parse_spec(t: Seq<char>) -> Option<MessageView> {
    parse_lines(split_lines(t))
}

} // verus!
