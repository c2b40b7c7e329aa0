//! Laws of the canonical text: reading what was written gives the message
//! back, and writing what was read gives the text back.

use vstd::prelude::*;
use crate::address::{address_of_text, eip55_of, has_hex_prefix, strip_hex_prefix};
use crate::grammar::{
    canonical_decimal, decimal, digit_chars, digits_value, expiration_tag, fields_start,
    is_digit, is_resource_line, issued_tag, message_lines, nonce_tag, not_before_tag,
    optional_line, parse_decimal, parse_lines, parse_resources, preamble, request_tag,
    resource_lines, resource_tag, resources_header, statement_lines, strip_prefix, strip_suffix,
    tail_lines, take_optional, uri_tag, chain_tag, version_line, parse_spec, serialize_spec,
};
use crate::message::{valid_message, MessageView, valid_uri};
use crate::text::{
    all_no_newline, join_lines, lemma_join_split, lemma_split_join, no_newline, split_lines,
};

verus! {

proof fn lemma_digit(d: int)
    requires
        0 <= d < 10,
    ensures
        is_digit(digit_chars()[d]),
        digit_chars()[d] as int - '0' as int == d,
{
    let ds = digit_chars();
    assert(ds[0] == '0' && ds[1] == '1' && ds[2] == '2' && ds[3] == '3' && ds[4] == '4');
    assert(ds[5] == '5' && ds[6] == '6' && ds[7] == '7' && ds[8] == '8' && ds[9] == '9');
}

proof fn lemma_div_mod_10(v: nat, d: nat)
    requires
        d < 10,
    ensures
        (v * 10 + d) / 10 == v,
        (v * 10 + d) % 10 == d,
{
    assert((v * 10 + d) / 10 == v) by (nonlinear_arith)
        requires d < 10;
    assert((v * 10 + d) % 10 == d) by (nonlinear_arith)
        requires d < 10;
}

/// The digits of a number are canonical, read back to that number, and start
/// with a non-zero digit when it is not zero.
pub proof fn lemma_decimal_digits(n: nat)
    ensures
        canonical_decimal(decimal(n)),
        digits_value(decimal(n)) == n,
        n >= 10 ==> decimal(n).len() >= 2,
        n >= 1 ==> decimal(n)[0] != '0',
    decreases n,
{
    let s = decimal(n);
    if n < 10 {
        lemma_digit(n as int);
        assert(s.drop_last() =~= Seq::<char>::empty());
        assert(s.last() == digit_chars()[n as int]);
        assert(digits_value(s.drop_last()) == 0);
        assert(digits_value(s) == n);
    } else {
        let q = n / 10;
        let d = n % 10;
        lemma_decimal_digits(q);
        lemma_digit(d as int);
        let p = decimal(q);
        assert(s.drop_last() =~= p);
        assert(s[0] == p[0]);
        assert forall|i: int| 0 <= i < s.len() implies is_digit(#[trigger] s[i]) by {
            if i < p.len() {
                assert(s[i] == p[i]);
            }
        }
        assert(s.last() == digit_chars()[d as int]);
        assert(digits_value(s) == digits_value(p) * 10 + d);
        assert(n == q * 10 + d);
    }
}

proof fn lemma_digits_value_positive(s: Seq<char>)
    requires
        canonical_decimal(s),
        s[0] != '0',
    ensures
        digits_value(s) >= 1,
    decreases s.len(),
{
    if s.len() > 1 {
        let p = s.drop_last();
        assert(canonical_decimal(p)) by {
            assert forall|i: int| 0 <= i < p.len() implies is_digit(#[trigger] p[i]) by {
                assert(p[i] == s[i]);
            }
        }
        lemma_digits_value_positive(p);
    }
}

/// Canonical digits are the digits of the number they stand for.
pub proof fn lemma_digits_decimal(s: Seq<char>)
    requires
        canonical_decimal(s),
    ensures
        decimal(digits_value(s)) == s,
    decreases s.len(),
{
    let d = (s.last() as int - '0' as int) as nat;
    assert(is_digit(s[s.len() - 1]));
    lemma_digit(d as int);
    if s.len() == 1 {
        assert(s.drop_last() =~= Seq::<char>::empty());
        assert(digits_value(s.drop_last()) == 0);
        assert(digits_value(s) == d);
        assert(decimal(d) =~= s);
    } else {
        let p = s.drop_last();
        assert(canonical_decimal(p)) by {
            assert forall|i: int| 0 <= i < p.len() implies is_digit(#[trigger] p[i]) by {
                assert(p[i] == s[i]);
            }
        }
        lemma_digits_decimal(p);
        lemma_digits_value_positive(p);
        let v = digits_value(p);
        lemma_div_mod_10(v, d);
        assert(s.last() == digit_chars()[d as int]) by {
            assert(digit_chars()[d as int] as int == s.last() as int);
        }
        assert(digits_value(s) == v * 10 + d);
        assert(p.push(s.last()) =~= s);
    }
}

/// A chain id written in decimal reads back to itself.
pub proof fn lemma_chain_id_round_trip(n: u64)
    ensures
        parse_decimal(decimal(n as nat)) == Some(n),
{
    lemma_decimal_digits(n as nat);
}

/// Canonical chain-id digits are the digits of the id they read to.
pub proof fn lemma_chain_id_digits(s: Seq<char>)
    requires
        parse_decimal(s) is Some,
    ensures
        decimal(parse_decimal(s)->0 as nat) == s,
{
    lemma_digits_decimal(s);
}


proof fn lemma_strip_prefix_concat(tag: Seq<char>, v: Seq<char>)
    ensures
        strip_prefix(tag + v, tag) == Some(v),
{
    assert((tag + v).subrange(0, tag.len() as int) =~= tag);
    assert((tag + v).subrange(tag.len() as int, (tag + v).len() as int) =~= v);
}

proof fn lemma_strip_suffix_concat(v: Seq<char>, suffix: Seq<char>)
    ensures
        strip_suffix(v + suffix, suffix) == Some(v),
{
    let l = v + suffix;
    assert(l.subrange(l.len() - suffix.len(), l.len() as int) =~= suffix);
    assert(l.subrange(0, l.len() - suffix.len()) =~= v);
}

proof fn lemma_prefix_mismatch(l: Seq<char>, tag: Seq<char>, i: int)
    requires
        0 <= i < tag.len(),
        i < l.len(),
        l[i] != tag[i],
    ensures
        strip_prefix(l, tag) is None,
{
    if tag.len() <= l.len() {
        assert(l.subrange(0, tag.len() as int)[i] != tag[i]);
    }
}

proof fn lemma_tags()
    ensures
        expiration_tag().len() == 17 && expiration_tag()[0] == 'E',
        not_before_tag().len() == 12 && not_before_tag()[0] == 'N',
        request_tag().len() == 12 && request_tag()[0] == 'R' && request_tag()[2] == 'q',
        resources_header().len() == 10 && resources_header()[0] == 'R'
            && resources_header()[2] == 's',
        resource_tag().len() == 2,
{
    reveal_strlit("Expiration Time: ");
    reveal_strlit("Not Before: ");
    reveal_strlit("Request ID: ");
    reveal_strlit("Resources:");
    reveal_strlit("- ");
}

/// The lines that may follow "Issued At:" read back to the optional fields and
/// the resources they were written from.
proof fn lemma_tail_parse(
    exp: Option<Seq<char>>,
    nbf: Option<Seq<char>>,
    rid: Option<Seq<char>>,
    rs: Seq<Seq<char>>,
)
    requires
        forall|i: int| 0 <= i < rs.len() ==> valid_uri(#[trigger] rs[i]),
    ensures
        ({
            let rest = optional_line(expiration_tag(), exp) + optional_line(not_before_tag(), nbf)
                + optional_line(request_tag(), rid) + resource_lines(rs);
            let (e, r1) = take_optional(rest, expiration_tag());
            let (n, r2) = take_optional(r1, not_before_tag());
            let (q, r3) = take_optional(r2, request_tag());
            e == exp && n == nbf && q == rid && parse_resources(r3) == Some(rs)
        }),
{
    lemma_tags();
    let res = resource_lines(rs);
    let r2 = optional_line(request_tag(), rid) + res;
    let r1 = optional_line(not_before_tag(), nbf) + r2;
    let rest = optional_line(expiration_tag(), exp) + r1;
    assert(rest =~= optional_line(expiration_tag(), exp) + optional_line(not_before_tag(), nbf)
        + optional_line(request_tag(), rid) + resource_lines(rs));
    if res.len() > 0 {
        assert(res[0] == resources_header());
    }
    // the request id line
    match rid {
        Some(v) => {
            lemma_strip_prefix_concat(request_tag(), v);
            assert(r2.drop_first() =~= res);
        },
        None => {
            assert(r2 =~= res);
            if res.len() > 0 {
                lemma_prefix_mismatch(r2[0], request_tag(), 2);
            }
        },
    }
    // the not-before line
    match nbf {
        Some(v) => {
            lemma_strip_prefix_concat(not_before_tag(), v);
            assert(r1.drop_first() =~= r2);
        },
        None => {
            assert(r1 =~= r2);
            if r2.len() > 0 {
                if rid is Some {
                    assert(r2[0] == request_tag() + rid->0);
                }
                lemma_prefix_mismatch(r2[0], not_before_tag(), 0);
            }
        },
    }
    // the expiration line
    match exp {
        Some(v) => {
            lemma_strip_prefix_concat(expiration_tag(), v);
            assert(rest.drop_first() =~= r1);
        },
        None => {
            assert(rest =~= r1);
            if r1.len() > 0 {
                if nbf is Some {
                    assert(r1[0] == not_before_tag() + nbf->0);
                } else if rid is Some {
                    assert(r1[0] == r2[0]);
                    assert(r2[0] == request_tag() + rid->0);
                } else {
                    assert(r1[0] == res[0]);
                }
                lemma_prefix_mismatch(r1[0], expiration_tag(), 0);
            }
        },
    }
    // the resources
    if rs.len() > 0 {
        let body = rs.map_values(|r: Seq<char>| resource_tag() + r);
        assert(res.drop_first() =~= body);
        assert forall|j: int| 1 <= j < res.len() implies is_resource_line(#[trigger] res[j]) by {
            assert(res[j] == resource_tag() + rs[j - 1]);
            lemma_strip_prefix_concat(resource_tag(), rs[j - 1]);
        }
        assert forall|j: int| 0 <= j < rs.len() implies strip_prefix(body[j], resource_tag())->0
            == rs[j] by {
            lemma_strip_prefix_concat(resource_tag(), rs[j]);
        }
        assert(res.drop_first().map_values(|l: Seq<char>| strip_prefix(l, resource_tag())->0)
            =~= rs);
    } else {
        assert(res =~= Seq::<Seq<char>>::empty());
    }
}

/// Reading the lines written from a valid message gives the message back,
/// whatever case its address digits are written in.
pub proof fn lemma_parse_lines_of_message(m: MessageView, address_line: Seq<char>)
    requires
        valid_message(m),
        has_hex_prefix(address_line),
        address_of_text(address_line) == Some(m.address),
    ensures
        parse_lines(message_lines(m, address_line)) == Some(m),
{
    let ls = message_lines(m, address_line);
    let head = seq![m.domain + preamble(), address_line, Seq::<char>::empty()] + statement_lines(
        m.statement,
    );
    let fields = seq![
        uri_tag() + m.uri,
        version_line(),
        chain_tag() + decimal(m.chain_id as nat),
        nonce_tag() + m.nonce,
        issued_tag() + m.issued_at,
    ];
    let rest = optional_line(expiration_tag(), m.expiration_time) + optional_line(
        not_before_tag(),
        m.not_before,
    ) + optional_line(request_tag(), m.request_id) + resource_lines(m.resources);
    assert(ls =~= head + fields + rest);
    let k = head.len() as int;
    assert(ls[0] == m.domain + preamble());
    assert(ls[1] == address_line);
    assert(ls[2] == Seq::<char>::empty());
    match m.statement {
        Some(s) => {
            assert(ls[3] == s);
            assert(ls[4] == Seq::<char>::empty());
        },
        None => {
            assert(ls[3] == Seq::<char>::empty());
        },
    }
    assert(fields_start(ls) == k);
    assert(ls[k] == uri_tag() + m.uri);
    assert(ls[k + 1] == version_line());
    assert(ls[k + 2] == chain_tag() + decimal(m.chain_id as nat));
    assert(ls[k + 3] == nonce_tag() + m.nonce);
    assert(ls[k + 4] == issued_tag() + m.issued_at);
    assert(tail_lines(ls) =~= rest);
    lemma_strip_suffix_concat(m.domain, preamble());
    lemma_strip_prefix_concat(uri_tag(), m.uri);
    lemma_strip_prefix_concat(chain_tag(), decimal(m.chain_id as nat));
    lemma_strip_prefix_concat(nonce_tag(), m.nonce);
    lemma_strip_prefix_concat(issued_tag(), m.issued_at);
    lemma_chain_id_round_trip(m.chain_id);
    lemma_tail_parse(m.expiration_time, m.not_before, m.request_id, m.resources);
}


proof fn lemma_concat_no_newline(a: Seq<char>, b: Seq<char>)
    requires
        no_newline(a),
        no_newline(b),
    ensures
        no_newline(a + b),
{
    assert forall|i: int| 0 <= i < (a + b).len() implies (a + b)[i] != '\n' by {
        if i < a.len() {
            assert((a + b)[i] == a[i]);
        } else {
            assert((a + b)[i] == b[i - a.len()]);
        }
    }
}

proof fn lemma_tags_no_newline()
    ensures
        no_newline(preamble()),
        no_newline(uri_tag()),
        no_newline(version_line()),
        no_newline(chain_tag()),
        no_newline(nonce_tag()),
        no_newline(issued_tag()),
        no_newline(expiration_tag()),
        no_newline(not_before_tag()),
        no_newline(request_tag()),
        no_newline(resources_header()),
        no_newline(resource_tag()),
{
    reveal_strlit(" wants you to sign in with your Ethereum account:");
    reveal_strlit("URI: ");
    reveal_strlit("Version: 1");
    reveal_strlit("Chain ID: ");
    reveal_strlit("Nonce: ");
    reveal_strlit("Issued At: ");
    reveal_strlit("Expiration Time: ");
    reveal_strlit("Not Before: ");
    reveal_strlit("Request ID: ");
    reveal_strlit("Resources:");
    reveal_strlit("- ");
}

proof fn lemma_optional_no_newline(tag: Seq<char>, o: Option<Seq<char>>)
    requires
        no_newline(tag),
        o matches Some(v) ==> no_newline(v),
    ensures
        all_no_newline(optional_line(tag, o)),
{
    if o is Some {
        lemma_concat_no_newline(tag, o->0);
    }
}

proof fn lemma_all_no_newline_concat(a: Seq<Seq<char>>, b: Seq<Seq<char>>)
    requires
        all_no_newline(a),
        all_no_newline(b),
    ensures
        all_no_newline(a + b),
{
    assert forall|i: int| 0 <= i < (a + b).len() implies no_newline(#[trigger] (a + b)[i]) by {
        if i < a.len() {
            assert((a + b)[i] == a[i]);
        } else {
            assert((a + b)[i] == b[i - a.len()]);
        }
    }
}

/// No line written from a valid message holds a line feed.
proof fn lemma_message_lines_no_newline(m: MessageView, address_line: Seq<char>)
    requires
        valid_message(m),
        no_newline(address_line),
    ensures
        all_no_newline(message_lines(m, address_line)),
{
    lemma_tags_no_newline();
    lemma_decimal_digits(m.chain_id as nat);
    let dec = decimal(m.chain_id as nat);
    assert(no_newline(dec)) by {
        assert forall|i: int| 0 <= i < dec.len() implies dec[i] != '\n' by {
            assert(is_digit(dec[i]));
        }
    }
    assert(no_newline(Seq::<char>::empty()));
    assert(no_newline(m.nonce)) by {
        assert forall|i: int| 0 <= i < m.nonce.len() implies m.nonce[i] != '\n' by {
            assert(crate::message::is_alphanumeric(m.nonce[i]));
        }
    }
    lemma_concat_no_newline(m.domain, preamble());
    lemma_concat_no_newline(uri_tag(), m.uri);
    lemma_concat_no_newline(chain_tag(), dec);
    lemma_concat_no_newline(nonce_tag(), m.nonce);
    lemma_concat_no_newline(issued_tag(), m.issued_at);
    let head = seq![m.domain + preamble(), address_line, Seq::<char>::empty()];
    assert(all_no_newline(head));
    assert(all_no_newline(statement_lines(m.statement)));
    let fields = seq![
        uri_tag() + m.uri,
        version_line(),
        chain_tag() + dec,
        nonce_tag() + m.nonce,
        issued_tag() + m.issued_at,
    ];
    assert(all_no_newline(fields));
    lemma_optional_no_newline(expiration_tag(), m.expiration_time);
    lemma_optional_no_newline(not_before_tag(), m.not_before);
    lemma_optional_no_newline(request_tag(), m.request_id);
    let res = resource_lines(m.resources);
    assert(all_no_newline(res)) by {
        assert forall|i: int| 0 <= i < res.len() implies no_newline(#[trigger] res[i]) by {
            if i > 0 {
                assert(res[i] == resource_tag() + m.resources[i - 1]);
                assert(valid_uri(m.resources[i - 1]));
                lemma_concat_no_newline(resource_tag(), m.resources[i - 1]);
            }
        }
    }
    let a = head + statement_lines(m.statement);
    lemma_all_no_newline_concat(head, statement_lines(m.statement));
    lemma_all_no_newline_concat(a, fields);
    lemma_all_no_newline_concat(a + fields, optional_line(expiration_tag(), m.expiration_time));
    let b = a + fields + optional_line(expiration_tag(), m.expiration_time);
    lemma_all_no_newline_concat(b, optional_line(not_before_tag(), m.not_before));
    let c = b + optional_line(not_before_tag(), m.not_before);
    lemma_all_no_newline_concat(c, optional_line(request_tag(), m.request_id));
    let d = c + optional_line(request_tag(), m.request_id);
    lemma_all_no_newline_concat(d, res);
}

/// Round trip: reading the text written from a valid message gives the
/// message back. The address may be written in any case; the canonical text
/// (`serialize_spec`) writes it checksummed.
pub proof fn lemma_round_trip(m: MessageView, address_line: Seq<char>)
    requires
        valid_message(m),
        has_hex_prefix(address_line),
        address_of_text(address_line) == Some(m.address),
    ensures
        parse_spec(join_lines(message_lines(m, address_line))) == Some(m),
{
    let h = strip_hex_prefix(address_line);
    assert(no_newline(address_line)) by {
        assert forall|i: int| 0 <= i < address_line.len() implies address_line[i] != '\n' by {
            if i >= 2 {
                assert(address_line[i] == h[i - 2]);
                assert(crate::address::hex_val(h[i - 2]) >= 0);
            }
        }
    }
    lemma_message_lines_no_newline(m, address_line);
    lemma_split_join(message_lines(m, address_line));
    lemma_parse_lines_of_message(m, address_line);
}


proof fn lemma_strip_prefix_inverse(l: Seq<char>, tag: Seq<char>)
    requires
        strip_prefix(l, tag) is Some,
    ensures
        l == tag + strip_prefix(l, tag)->0,
{
    assert(l =~= l.subrange(0, tag.len() as int) + l.subrange(tag.len() as int, l.len() as int));
}

proof fn lemma_strip_suffix_inverse(l: Seq<char>, suffix: Seq<char>)
    requires
        strip_suffix(l, suffix) is Some,
    ensures
        l == strip_suffix(l, suffix)->0 + suffix,
{
    let c = l.len() - suffix.len();
    assert(l =~= l.subrange(0, c) + l.subrange(c, l.len() as int));
}

proof fn lemma_take_optional_inverse(rest: Seq<Seq<char>>, tag: Seq<char>)
    ensures
        rest == optional_line(tag, take_optional(rest, tag).0) + take_optional(rest, tag).1,
{
    if rest.len() > 0 && strip_prefix(rest[0], tag) is Some {
        lemma_strip_prefix_inverse(rest[0], tag);
        assert(rest =~= seq![rest[0]] + rest.drop_first());
    } else {
        assert(rest =~= Seq::<Seq<char>>::empty() + rest);
    }
}

proof fn lemma_resources_inverse(r: Seq<Seq<char>>)
    requires
        parse_resources(r) is Some,
    ensures
        r == resource_lines(parse_resources(r)->0),
{
    if r.len() > 0 {
        let rs = parse_resources(r)->0;
        assert forall|j: int| 1 <= j < r.len() implies r[j] == resource_tag() + rs[j - 1] by {
            assert(is_resource_line(r[j]));
            lemma_strip_prefix_inverse(r[j], resource_tag());
        }
        assert(r =~= seq![resources_header()] + rs.map_values(|x: Seq<char>| resource_tag() + x));
    } else {
        assert(r =~= Seq::<Seq<char>>::empty());
    }
}

proof fn lemma_head_of_parse(ls: Seq<Seq<char>>)
    requires
        parse_lines(ls) is Some,
    ensures
        ls.subrange(0, fields_start(ls)) == seq![
            parse_lines(ls)->0.domain + preamble(),
            ls[1],
            Seq::<char>::empty(),
        ] + statement_lines(parse_lines(ls)->0.statement),
{
    let m = parse_lines(ls)->0;
    let k = fields_start(ls);
    lemma_strip_suffix_inverse(ls[0], preamble());
    assert(ls[2] =~= Seq::<char>::empty());
    if ls[3].len() > 0 {
        assert(ls[4] =~= Seq::<char>::empty());
    } else {
        assert(ls[3] =~= Seq::<char>::empty());
    }
    assert(ls.subrange(0, k) =~= seq![m.domain + preamble(), ls[1], Seq::<char>::empty()]
        + statement_lines(m.statement));
}

proof fn lemma_fields_of_parse(ls: Seq<Seq<char>>)
    requires
        parse_lines(ls) is Some,
    ensures
        ls.subrange(fields_start(ls), fields_start(ls) + 5) == seq![
            uri_tag() + parse_lines(ls)->0.uri,
            version_line(),
            chain_tag() + decimal(parse_lines(ls)->0.chain_id as nat),
            nonce_tag() + parse_lines(ls)->0.nonce,
            issued_tag() + parse_lines(ls)->0.issued_at,
        ],
{
    let m = parse_lines(ls)->0;
    let k = fields_start(ls);
    lemma_strip_prefix_inverse(ls[k], uri_tag());
    lemma_strip_prefix_inverse(ls[k + 2], chain_tag());
    lemma_chain_id_digits(strip_prefix(ls[k + 2], chain_tag())->0);
    lemma_strip_prefix_inverse(ls[k + 3], nonce_tag());
    lemma_strip_prefix_inverse(ls[k + 4], issued_tag());
    assert(ls.subrange(k, k + 5) =~= seq![
        uri_tag() + m.uri,
        version_line(),
        chain_tag() + decimal(m.chain_id as nat),
        nonce_tag() + m.nonce,
        issued_tag() + m.issued_at,
    ]);
}

proof fn lemma_tail_of_parse(ls: Seq<Seq<char>>)
    requires
        parse_lines(ls) is Some,
    ensures
        tail_lines(ls) == optional_line(expiration_tag(), parse_lines(ls)->0.expiration_time)
            + optional_line(not_before_tag(), parse_lines(ls)->0.not_before) + optional_line(
            request_tag(),
            parse_lines(ls)->0.request_id,
        ) + resource_lines(parse_lines(ls)->0.resources),
{
    let m = parse_lines(ls)->0;
    let rest = tail_lines(ls);
    let (e, r1) = take_optional(rest, expiration_tag());
    let (n, r2) = take_optional(r1, not_before_tag());
    let (q, r3) = take_optional(r2, request_tag());
    lemma_take_optional_inverse(rest, expiration_tag());
    lemma_take_optional_inverse(r1, not_before_tag());
    lemma_take_optional_inverse(r2, request_tag());
    lemma_resources_inverse(r3);
    assert(rest =~= optional_line(expiration_tag(), e) + optional_line(not_before_tag(), n)
        + optional_line(request_tag(), q) + resource_lines(m.resources));
}

/// Lines that read as a message are exactly the lines written from it, with
/// their own address line.
pub proof fn lemma_lines_of_parse(ls: Seq<Seq<char>>)
    requires
        parse_lines(ls) is Some,
    ensures
        ls == message_lines(parse_lines(ls)->0, ls[1]),
{
    let k = fields_start(ls);
    lemma_head_of_parse(ls);
    lemma_fields_of_parse(ls);
    lemma_tail_of_parse(ls);
    assert(ls =~= ls.subrange(0, k) + ls.subrange(k, k + 5) + tail_lines(ls));
    assert(ls =~= message_lines(parse_lines(ls)->0, ls[1]));
}

/// Canonical-text stability: a text that reads as a message, and writes the
/// address in its checksummed form, is the canonical text of that message.
pub proof fn lemma_canonical_text_stable(t: Seq<char>)
    requires
        parse_spec(t) is Some,
        split_lines(t)[1] == eip55_of(parse_spec(t)->0.address),
    ensures
        serialize_spec(parse_spec(t)->0) == t,
{
    lemma_join_split(t);
    lemma_lines_of_parse(split_lines(t));
}


/// Malformed text is rejected: every text that reads as a message has the
/// "wants you to sign in" header line, declares "Version: 1", and carries an
/// absolute URI.
pub proof fn lemma_accepted_text_shape(t: Seq<char>)
    ensures
        parse_spec(t) is Some ==> strip_suffix(split_lines(t)[0], preamble()) is Some,
        parse_spec(t) is Some ==> split_lines(t)[fields_start(split_lines(t)) + 1]
            == version_line(),
        parse_spec(t) is Some ==> valid_uri(parse_spec(t)->0.uri),
{
}

} // verus!
