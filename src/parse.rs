//! Reading the canonical text of a message.

use vstd::prelude::*;
use crate::address::from_hex_address;
use crate::grammar::{
    canonical_decimal, digits_value, fields_start, head_ok, parse_decimal, parse_lines,
    parse_resources, parse_spec, strip_prefix, strip_suffix, tail_lines, take_optional,
    is_resource_line, resource_tag,
};
use crate::message::{
    check_domain, check_nonce, check_timestamp, check_uri_field, strings_view,
    Message, SiweError, Version,
};
use crate::text::{
    all_no_newline, lemma_join_split, lines_view, split_lines, split_text, string_of,
};

verus! {

pub open spec fn opt_chars(o: Option<Vec<char>>) -> Option<Seq<char>> {
    match o {
        Some(v) => Some(v@),
        None => None,
    }
}

/// `l` without the leading `tag`, if it starts with it.
fn strip_prefix_chars(l: &Vec<char>, tag: &str) -> (r: Option<Vec<char>>)
    ensures
        opt_chars(r) == strip_prefix(l@, tag@),
{
    let n = tag.unicode_len();
    if n > l.len() {
        return None;
    }
    let mut i: usize = 0;
    while i < n
        invariant
            n == tag@.len(),
            n <= l.len(),
            i <= n,
            forall|j: int| 0 <= j < i ==> l@[j] == tag@[j],
        decreases n - i,
    {
        if l[i] != tag.get_char(i) {
            proof {
                assert(l@.subrange(0, n as int)[i as int] != tag@[i as int]);
            }
            return None;
        }
        i += 1;
    }
    proof {
        assert(l@.subrange(0, n as int) =~= tag@);
    }
    let mut rest: Vec<char> = Vec::new();
    let mut j: usize = n;
    while j < l.len()
        invariant
            n <= j <= l.len(),
            rest@ == l@.subrange(n as int, j as int),
        decreases l.len() - j,
    {
        rest.push(l[j]);
        j += 1;
    }
    Some(rest)
}

/// `l` without the trailing `suffix`, if it ends with it.
fn strip_suffix_chars(l: &Vec<char>, suffix: &str) -> (r: Option<Vec<char>>)
    ensures
        opt_chars(r) == strip_suffix(l@, suffix@),
{
    let n = suffix.unicode_len();
    if n > l.len() {
        return None;
    }
    let start = l.len() - n;
    let mut i: usize = 0;
    while i < n
        invariant
            n == suffix@.len(),
            start + n == l.len(),
            i <= n,
            forall|j: int| 0 <= j < i ==> l@[start + j] == suffix@[j],
        decreases n - i,
    {
        if l[start + i] != suffix.get_char(i) {
            proof {
                assert(l@.subrange(start as int, l.len() as int)[i as int] != suffix@[i as int]);
            }
            return None;
        }
        i += 1;
    }
    proof {
        assert(l@.subrange(start as int, l.len() as int) =~= suffix@);
    }
    let mut head: Vec<char> = Vec::new();
    let mut j: usize = 0;
    while j < start
        invariant
            j <= start,
            start <= l.len(),
            head@ == l@.subrange(0, j as int),
        decreases start - j,
    {
        head.push(l[j]);
        j += 1;
    }
    Some(head)
}

fn same_chars(l: &Vec<char>, s: &str) -> (r: bool)
    ensures
        r == (l@ == s@),
{
    let n = s.unicode_len();
    if n != l.len() {
        return false;
    }
    let mut i: usize = 0;
    while i < n
        invariant
            n == s@.len(),
            n == l.len(),
            i <= n,
            forall|j: int| 0 <= j < i ==> l@[j] == s@[j],
        decreases n - i,
    {
        if l[i] != s.get_char(i) {
            return false;
        }
        i += 1;
    }
    proof {
        assert(l@ =~= s@);
    }
    true
}

/// The chain id written by the digits `v`: decimal, with no leading zero, and
/// no more than 64 bits.
fn parse_chain_id(v: &Vec<char>) -> (r: Option<u64>)
    ensures
        r == parse_decimal(v@),
{
    let n = v.len();
    if n == 0 || (n > 1 && v[0] == '0') {
        return None;
    }
    let mut value: u64 = 0;
    let mut i: usize = 0;
    while i < n
        invariant
            n == v@.len(),
            n > 0,
            n == 1 || v@[0] != '0',
            i <= n,
            value as nat == digits_value(v@.subrange(0, i as int)),
            forall|j: int| 0 <= j < i ==> '0' <= #[trigger] v@[j] && v@[j] <= '9',
        decreases n - i,
    {
        let c = v[i];
        let ghost p = v@.subrange(0, i as int + 1);
        proof {
            assert(p.drop_last() =~= v@.subrange(0, i as int));
        }
        if !('0' <= c && c <= '9') {
            proof {
                assert(!canonical_decimal(v@) || !('0' <= v@[i as int] && v@[i as int] <= '9'));
            }
            return None;
        }
        let d: u64 = (c as u32 - '0' as u32) as u64;
        if value > (u64::MAX - d) / 10 {
            proof {
                lemma_digits_value_prefix(v@, i as int + 1);
                assert(digits_value(p) == value * 10 + d);
                assert(value * 10 + d > u64::MAX) by (nonlinear_arith)
                    requires value > (u64::MAX - d) / 10, d < 10;
            }
            return None;
        }
        proof {
            assert(value * 10 + d <= u64::MAX) by (nonlinear_arith)
                requires value <= (u64::MAX - d) / 10, d < 10;
        }
        value = value * 10 + d;
        i += 1;
    }
    proof {
        assert(v@.subrange(0, n as int) =~= v@);
    }
    Some(value)
}

/// A value of the digits read so far never exceeds the value of all of them.
proof fn lemma_digits_value_prefix(s: Seq<char>, i: int)
    requires
        0 <= i <= s.len(),
    ensures
        digits_value(s.subrange(0, i)) <= digits_value(s),
    decreases s.len() - i,
{
    if i < s.len() {
        lemma_digits_value_prefix(s, i + 1);
        let p = s.subrange(0, i + 1);
        assert(p.drop_last() =~= s.subrange(0, i));
    } else {
        assert(s.subrange(0, i) =~= s);
    }
}

proof fn lemma_strip_prefix_no_newline(l: Seq<char>, tag: Seq<char>)
    requires
        crate::text::no_newline(l),
        strip_prefix(l, tag) is Some,
    ensures
        crate::text::no_newline(strip_prefix(l, tag)->0),
{
    let v = strip_prefix(l, tag)->0;
    assert forall|i: int| 0 <= i < v.len() implies v[i] != '\n' by {
        assert(v[i] == l[i + tag.len()]);
    }
}

fn malformed(reason: &str) -> (e: SiweError)
    ensures
        e is MalformedMessage,
{
    SiweError::MalformedMessage(reason.to_owned())
}

/// The optional line tagged `tag` at `pos`: its value and where the next
/// line starts.
fn take_optional_line(lines: &Vec<Vec<char>>, pos: usize, tag: &str) -> (r: (Option<Vec<char>>, usize))
    requires
        pos <= lines.len(),
    ensures
        r.1 <= lines.len(),
        take_optional(lines_view(lines@).subrange(pos as int, lines.len() as int), tag@) == (
            opt_chars(r.0),
            lines_view(lines@).subrange(r.1 as int, lines.len() as int),
        ),
{
    let ghost ls = lines_view(lines@);
    let ghost rest = ls.subrange(pos as int, lines.len() as int);
    if pos < lines.len() {
        let v = strip_prefix_chars(&lines[pos], tag);
        assert(rest[0] == lines@[pos as int]@);
        match v {
            Some(v) => {
                assert(rest.drop_first() =~= ls.subrange(pos as int + 1, lines.len() as int));
                (Some(v), pos + 1)
            },
            None => (None, pos),
        }
    } else {
        (None, pos)
    }
}

/// Reads the canonical text of a message. It fails with `MalformedMessage`
/// exactly where the text does not follow the grammar.
pub fn parse(text: &str) -> (r: Result<Message, SiweError>)
    ensures
        match r {
            Ok(m) => parse_spec(text@) == Some(m@) && m.wf(),
            Err(e) => parse_spec(text@) is None && e is MalformedMessage,
        },
{
    let lines = split_text(text);
    let ghost ls = lines_view(lines@);
    proof {
        lemma_join_split(text@);
        assert(ls == split_lines(text@));
    }
    let n = lines.len();
    if n < 4 {
        return Err(malformed("too few lines"));
    }
    assert(ls[0] == lines@[0]@ && ls[1] == lines@[1]@ && ls[2] == lines@[2]@ && ls[3] == lines@[3]@);
    let domain = match strip_suffix_chars(&lines[0], " wants you to sign in with your Ethereum account:") {
        Some(d) => string_of(&d),
        None => return Err(malformed("missing preamble line")),
    };
    if !check_domain(domain.as_str()) {
        return Err(malformed("bad domain"));
    }
    let l1 = &lines[1];
    if !(l1.len() >= 2 && l1[0] == '0' && l1[1] == 'x') {
        return Err(malformed("address without 0x"));
    }
    let address_text = string_of(l1);
    let address = match from_hex_address(address_text.as_str()) {
        Ok(a) => a,
        Err(_) => return Err(malformed("bad address")),
    };
    if lines[2].len() != 0 {
        return Err(malformed("no blank line after the address"));
    }
    let has_statement = lines[3].len() > 0;
    let statement = if has_statement {
        if n < 5 || lines[4].len() != 0 {
            return Err(malformed("no blank line after the statement"));
        }
        assert(ls[4] == lines@[4]@);
        proof {
            assert(all_no_newline(ls));
            assert(crate::text::no_newline(ls[3]));
        }
        Some(string_of(&lines[3]))
    } else {
        None
    };
    let k: usize = if has_statement { 5 } else { 4 };
    assert(k as int == fields_start(ls));
    if n < k + 5 {
        return Err(malformed("missing fields"));
    }
    assert(head_ok(ls));
    assert(ls[k as int] == lines@[k as int]@ && ls[k + 1] == lines@[k + 1]@ && ls[k + 2]
        == lines@[k + 2]@ && ls[k + 3] == lines@[k + 3]@ && ls[k + 4] == lines@[k + 4]@);
    let uri = match strip_prefix_chars(&lines[k], "URI: ") {
        Some(u) => string_of(&u),
        None => return Err(malformed("missing URI")),
    };
    if !check_uri_field(uri.as_str()) {
        return Err(malformed("bad URI"));
    }
    if !same_chars(&lines[k + 1], "Version: 1") {
        return Err(malformed("bad version"));
    }
    let chain_id = match strip_prefix_chars(&lines[k + 2], "Chain ID: ") {
        Some(c) => match parse_chain_id(&c) {
            Some(v) => v,
            None => return Err(malformed("bad chain id")),
        },
        None => return Err(malformed("missing chain id")),
    };
    let nonce = match strip_prefix_chars(&lines[k + 3], "Nonce: ") {
        Some(v) => string_of(&v),
        None => return Err(malformed("missing nonce")),
    };
    if !check_nonce(nonce.as_str()) {
        return Err(malformed("bad nonce"));
    }
    let issued_at = match strip_prefix_chars(&lines[k + 4], "Issued At: ") {
        Some(v) => string_of(&v),
        None => return Err(malformed("missing issued at")),
    };
    if !check_timestamp(issued_at.as_str()) {
        return Err(malformed("bad issued at"));
    }
    assert(tail_lines(ls) == ls.subrange(k + 5, n as int));
    let (exp, after_exp) = take_optional_line(&lines, k + 5, "Expiration Time: ");
    let expiration_time = match exp {
        Some(v) => {
            let s = string_of(&v);
            if !check_timestamp(s.as_str()) {
                return Err(malformed("bad expiration time"));
            }
            Some(s)
        },
        None => None,
    };
    let (nbf, after_nbf) = take_optional_line(&lines, after_exp, "Not Before: ");
    let not_before = match nbf {
        Some(v) => {
            let s = string_of(&v);
            if !check_timestamp(s.as_str()) {
                return Err(malformed("bad not before"));
            }
            Some(s)
        },
        None => None,
    };
    let (rid, after_rid) = take_optional_line(&lines, after_nbf, "Request ID: ");
    let request_id = match rid {
        Some(v) => {
            proof {
                assert(ls[after_nbf as int] == lines@[after_nbf as int]@);
                assert(crate::text::no_newline(ls[after_nbf as int]));
                let rest = ls.subrange(after_nbf as int, n as int);
                assert(rest[0] == ls[after_nbf as int]);
                lemma_strip_prefix_no_newline(ls[after_nbf as int], "Request ID: "@);
            }
            Some(string_of(&v))
        },
        None => None,
    };
    let ghost r3 = ls.subrange(after_rid as int, n as int);
    let mut resources: Vec<String> = Vec::new();
    if after_rid < n {
        assert(r3[0] == lines@[after_rid as int]@);
        if !(same_chars(&lines[after_rid], "Resources:") && after_rid + 2 <= n) {
            return Err(malformed("unexpected content"));
        }
        assert(parse_resources(r3) is None ==> parse_spec(text@) is None);
        let mut j: usize = after_rid + 1;
        while j < n
            invariant
                parse_resources(r3) is None ==> parse_spec(text@) is None,
                n == lines.len(),
                ls == lines_view(lines@),
                r3 == ls.subrange(after_rid as int, n as int),
                after_rid + 1 <= j <= n,
                forall|q: int| 1 <= q < j - after_rid ==> is_resource_line(#[trigger] r3[q]),
                strings_view(resources@) == Seq::new(
                    (j - after_rid - 1) as nat,
                    |q: int| strip_prefix(r3[q + 1], resource_tag())->0,
                ),
            decreases n - j,
        {
            assert(r3[j - after_rid] == lines@[j as int]@);
            let item = match strip_prefix_chars(&lines[j], "- ") {
                Some(v) => {
                    let s = string_of(&v);
                    assert(s@ == strip_prefix(r3[j - after_rid], resource_tag())->0);
                    s
                },
                None => {
                    proof {
                        assert(!is_resource_line(r3[j - after_rid]));
                        assert(parse_resources(r3) is None);
                    }
                    return Err(malformed("bad resource line"));
                },
            };
            if !check_uri_field(item.as_str()) {
                proof {
                    assert(!is_resource_line(r3[j - after_rid]));
                    assert(parse_resources(r3) is None);
                }
                return Err(malformed("bad resource"));
            }
            let ghost old_view = strings_view(resources@);
            let ghost item_view = item@;
            resources.push(item);
            proof {
                assert(strings_view(resources@) =~= old_view.push(item_view));
                assert(strings_view(resources@) =~= Seq::new(
                    (j + 1 - after_rid - 1) as nat,
                    |q: int| strip_prefix(r3[q + 1], resource_tag())->0,
                ));
            }
            j += 1;
        }
        proof {
            assert(strings_view(resources@) =~= r3.drop_first().map_values(
                |l: Seq<char>| strip_prefix(l, resource_tag())->0,
            ));
        }
    } else {
        proof {
            assert(strings_view(resources@) =~= Seq::<Seq<char>>::empty());
        }
    }
    assert(parse_resources(r3) == Some(strings_view(resources@)));
    let m = Message {
        domain,
        address,
        statement,
        uri,
        version: Version::V1,
        chain_id,
        nonce,
        issued_at,
        expiration_time,
        not_before,
        request_id,
        resources,
    };
    proof {
        assert(parse_lines(ls) == Some(m@));
    }
    Ok(m)
}

} // verus!
