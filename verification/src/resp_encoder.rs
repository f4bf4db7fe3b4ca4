//! The reply encoder: replies as the text that goes on the wire.

use vstd::prelude::*;
use vstd::string::*;
use vstd::utf8::*;

use crate::decimal::{decimal_text, signed_text, unsigned_text};
use crate::reply::{Reply, ReplyText};
use crate::text::texts;

verus! {

/// The two characters that end a line.
pub open spec fn crlf() -> Seq<char> {
    seq!['\r', '\n']
}

/// A value as a length-prefixed frame: `$`, the number of bytes that the value
/// takes in UTF-8, a line end, the value, a line end.
pub open spec fn bulk_text(v: Seq<char>) -> Seq<char> {
    seq!['$'] + decimal_text(encode_utf8(v).len() as int) + crlf() + v + crlf()
}

/// The frames of several values, one after the other.
pub open spec fn bulks_text(vs: Seq<Seq<char>>) -> Seq<char>
    decreases vs.len(),
{
    if vs.len() == 0 {
        Seq::empty()
    } else {
        bulks_text(vs.drop_last()) + bulk_text(vs.last())
    }
}

/// A list of values: `*`, their number, a line end, then their frames.
pub open spec fn array_text(vs: Seq<Seq<char>>) -> Seq<char> {
    seq!['*'] + decimal_text(vs.len() as int) + crlf() + bulks_text(vs)
}

/// The wire form of a reply.
pub open spec fn reply_text(r: ReplyText) -> Seq<char> {
    match r {
        ReplyText::Status(t) => seq!['+'] + t + crlf(),
        ReplyText::Integer(n) => seq![':'] + decimal_text(n as int) + crlf(),
        ReplyText::Bulk(Some(v)) => bulk_text(v),
        ReplyText::Bulk(None) => seq!['$', '-', '1', '\r', '\n'],
        ReplyText::Array(vs) => array_text(vs),
        ReplyText::Error(m) => seq!['-'] + m + crlf(),
    }
}

/// Appends a marker, a text and a line end.
fn push_line(out: &mut String, marker: &str, text: &str)
    ensures
        final(out)@ == old(out)@ + marker@ + text@ + crlf(),
{
    proof {
        reveal_strlit("\r\n");
    }
    out.append(marker);
    out.append(text);
    out.append("\r\n");
    assert("\r\n"@ =~= crlf());
}

/// Appends the length-prefixed frame of a value.
fn push_bulk(out: &mut String, value: &str)
    ensures
        final(out)@ == old(out)@ + bulk_text(value@),
{
    proof {
        reveal_strlit("$");
        reveal_strlit("\r\n");
    }
    let length = unsigned_text(value.as_bytes().len() as u64);
    push_line(out, "$", length.as_str());
    out.append(value);
    out.append("\r\n");
    assert("\r\n"@ =~= crlf());
    assert("$"@ =~= seq!['$']);
    assert(out@ =~= old(out)@ + bulk_text(value@));
}

/// Encodes a list of values.
pub fn encode_array_response(values: Vec<String>) -> (response: String)
    ensures
        response@ == array_text(texts(values@)),
{
    array_response(&values)
}

fn array_response(values: &Vec<String>) -> (response: String)
    ensures
        response@ == array_text(texts(values@)),
{
    proof {
        reveal_strlit("*");
    }
    let mut response = String::new();
    let count = unsigned_text(values.len() as u64);
    push_line(&mut response, "*", count.as_str());
    let ghost head = response@;
    assert(head =~= seq!['*'] + decimal_text(values@.len() as int) + crlf());
    let n: usize = values.len();
    let mut i: usize = 0;
    while i < n
        invariant
            i <= n,
            n == values@.len(),
            response@ == head + bulks_text(texts(values@).subrange(0, i as int)),
        decreases n - i,
    {
        push_bulk(&mut response, values[i].as_str());
        proof {
            let done = texts(values@).subrange(0, i + 1);
            assert(done.drop_last() =~= texts(values@).subrange(0, i as int));
            assert(done.last() == values@[i as int]@);
        }
        i = i + 1;
    }
    assert(texts(values@).subrange(0, n as int) =~= texts(values@));
    response
}

/// Encodes a reply.
pub fn encode(reply: &Reply) -> (response: String)
    ensures
        response@ == reply_text(reply@),
{
    proof {
        reveal_strlit("+");
        reveal_strlit(":");
        reveal_strlit("-");
        reveal_strlit("$-1\r\n");
    }
    let mut response = String::new();
    match reply {
        Reply::Status(token) => {
            push_line(&mut response, "+", token.as_str());
            assert(response@ =~= reply_text(reply@));
        },
        Reply::Integer(n) => {
            let digits = signed_text(*n);
            push_line(&mut response, ":", digits.as_str());
            assert(response@ =~= reply_text(reply@));
        },
        Reply::Bulk(Some(value)) => {
            push_bulk(&mut response, value.as_str());
            assert(response@ =~= reply_text(reply@));
        },
        Reply::Bulk(None) => {
            response.append("$-1\r\n");
            assert(response@ =~= reply_text(reply@));
        },
        Reply::Array(values) => {
            response = array_response(values);
            assert(response@ =~= reply_text(reply@));
        },
        Reply::Error(message) => {
            push_line(&mut response, "-", message.as_str());
            assert(response@ =~= reply_text(reply@));
        },
    }
    response
}

} // verus!
