//! Writing a message as its canonical text.

use vstd::prelude::*;
use crate::address::{eip55_of, to_checksummed};
use crate::grammar::{
    decimal, digit_chars, message_lines, optional_line, resource_tag, serialize_spec,
};
use crate::message::{opt_view, Message};
use crate::text::{join_lines, push_char};

verus! {

proof fn lemma_join_push(ls: Seq<Seq<char>>, l: Seq<char>)
    requires
        ls.len() >= 1,
    ensures
        join_lines(ls.push(l)) == join_lines(ls) + seq!['\n'] + l,
{
    assert(ls.push(l).drop_last() =~= ls);
}

fn digit_char(d: u64) -> (c: char)
    requires
        d < 10,
    ensures
        c == digit_chars()[d as int],
{
    match d {
        0 => '0',
        1 => '1',
        2 => '2',
        3 => '3',
        4 => '4',
        5 => '5',
        6 => '6',
        7 => '7',
        8 => '8',
        _ => '9',
    }
}

/// Appends the decimal digits of `n`.
fn push_decimal(out: &mut String, n: u64)
    ensures
        final(out)@ == old(out)@ + decimal(n as nat),
    decreases n,
{
    if n >= 10 {
        push_decimal(out, n / 10);
    }
    push_char(out, digit_char(n % 10));
    proof {
        if n < 10 {
            assert(old(out)@ + decimal(n as nat) =~= old(out)@.push(digit_chars()[n as int]));
        } else {
            assert((n / 10) as nat == (n as nat) / 10);
        }
    }
}

/// Appends a line feed and the line `a` followed by `b`.
fn push_line(out: &mut String, Ghost(ls): Ghost<Seq<Seq<char>>>, a: &str, b: &str)
    requires
        old(out)@ == join_lines(ls),
        ls.len() >= 1,
    ensures
        final(out)@ == join_lines(ls.push(a@ + b@)),
{
    out.append("\n");
    out.append(a);
    out.append(b);
    proof {
        lemma_join_push(ls, a@ + b@);
        reveal_strlit("\n");
        assert(final(out)@ =~= join_lines(ls) + seq!['\n'] + (a@ + b@));
    }
}

fn push_optional(out: &mut String, Ghost(ls): Ghost<Seq<Seq<char>>>, tag: &str, o: &Option<String>)
    requires
        old(out)@ == join_lines(ls),
        ls.len() >= 1,
    ensures
        final(out)@ == join_lines(ls + optional_line(tag@, opt_view(*o))),
{
    match o {
        Some(v) => {
            push_line(out, Ghost(ls), tag, v.as_str());
            assert(ls.push(tag@ + v@) =~= ls + seq![tag@ + v@]);
        },
        None => {
            assert(ls + Seq::<Seq<char>>::empty() =~= ls);
        },
    }
}

impl Message {
    /// The canonical text of the message.
    pub fn to_text(&self) -> (r: String)
        ensures
            r@ == serialize_spec(self@),
            self.wf() ==> crate::grammar::parse_spec(r@) == Some(self@),
    {
        let addr = to_checksummed(&self.address);
        let mut out = String::new();
        out.append(self.domain.as_str());
        out.append(" wants you to sign in with your Ethereum account:");
        let ghost mut ls: Seq<Seq<char>> = seq![out@];
        proof {
            assert(out@ =~= self.domain@ + " wants you to sign in with your Ethereum account:"@);
        }
        push_line(&mut out, Ghost(ls), addr.as_str(), "");
        proof {
            ls = ls.push(addr@ + ""@);
            reveal_strlit("");
            assert(addr@ + ""@ =~= addr@);
        }
        push_line(&mut out, Ghost(ls), "", "");
        proof {
            ls = ls.push(""@ + ""@);
            assert(""@ + ""@ =~= Seq::<char>::empty());
        }
        match &self.statement {
            Some(s) => {
                push_line(&mut out, Ghost(ls), s.as_str(), "");
                proof {
                    ls = ls.push(s@ + ""@);
                    assert(s@ + ""@ =~= s@);
                }
            },
            None => {},
        }
        push_line(&mut out, Ghost(ls), "", "");
        proof {
            ls = ls.push(""@ + ""@);
        }
        push_line(&mut out, Ghost(ls), "URI: ", self.uri.as_str());
        proof {
            ls = ls.push("URI: "@ + self.uri@);
        }
        push_line(&mut out, Ghost(ls), "Version: 1", "");
        proof {
            ls = ls.push("Version: 1"@ + ""@);
            assert("Version: 1"@ + ""@ =~= "Version: 1"@);
        }
        push_line(&mut out, Ghost(ls), "Chain ID: ", "");
        let ghost before = ls;
        push_decimal(&mut out, self.chain_id);
        proof {
            ls = ls.push("Chain ID: "@ + decimal(self.chain_id as nat));
            lemma_join_push(before, "Chain ID: "@ + ""@);
            lemma_join_push(before, "Chain ID: "@ + decimal(self.chain_id as nat));
            assert(out@ =~= join_lines(ls));
        }
        push_line(&mut out, Ghost(ls), "Nonce: ", self.nonce.as_str());
        proof {
            ls = ls.push("Nonce: "@ + self.nonce@);
        }
        push_line(&mut out, Ghost(ls), "Issued At: ", self.issued_at.as_str());
        proof {
            ls = ls.push("Issued At: "@ + self.issued_at@);
        }
        let ghost before = ls;
        push_optional(&mut out, Ghost(ls), "Expiration Time: ", &self.expiration_time);
        proof {
            ls = ls + optional_line("Expiration Time: "@, opt_view(self.expiration_time));
        }
        push_optional(&mut out, Ghost(ls), "Not Before: ", &self.not_before);
        proof {
            ls = ls + optional_line("Not Before: "@, opt_view(self.not_before));
        }
        push_optional(&mut out, Ghost(ls), "Request ID: ", &self.request_id);
        proof {
            ls = ls + optional_line("Request ID: "@, opt_view(self.request_id));
        }
        let ghost fixed = ls;
        let n = self.resources.len();
        if n > 0 {
            push_line(&mut out, Ghost(ls), "Resources:", "");
            proof {
                ls = ls.push("Resources:"@ + ""@);
                assert("Resources:"@ + ""@ =~= "Resources:"@);
            }
            let ghost base = ls;
            let mut i: usize = 0;
            while i < n
                invariant
                    n == self.resources@.len(),
                    i <= n,
                    base.len() >= 1,
                    out@ == join_lines(ls),
                    ls == base + Seq::new(i as nat, |j: int| resource_tag() + self.resources@[j]@),
                decreases n - i,
            {
                push_line(&mut out, Ghost(ls), "- ", self.resources[i].as_str());
                proof {
                    ls = ls.push("- "@ + self.resources@[i as int]@);
                    assert(ls =~= base + Seq::new((i + 1) as nat, |j: int| resource_tag() + self.resources@[j]@));
                }
                i += 1;
            }
        }
        proof {
            assert(ls =~= message_lines(self@, eip55_of(self.address@)));
            if self.wf() {
                crate::laws::lemma_round_trip(self@, addr@);
            }
        }
        out
    }
}

} // verus!
