//! The frame decoder and the command parser.
//!
//! A frame starts with a type marker. A line frame runs up to the first
//! carriage return; a length-prefixed frame gives the byte length of its
//! payload on such a line, followed by the payload and a two-byte terminator.

use vstd::prelude::*;
use vstd::slice::*;
use vstd::utf8::*;

use crate::decimal::{i32_value, parse_i32};
use crate::reply::{Reply, ReplyText};
use crate::text::{text_of, texts};

verus! {

/// The ASCII code of the carriage return that ends a line.
pub const CR: u8 = 13;

/// Why a frame could not be decoded.
#[derive(Clone, Copy, Debug, PartialEq, Eq)]
pub enum DecodeError {
    /// More bytes are needed: the slice holds no carriage return, or the
    /// frame runs past its end.
    Incomplete,
    /// A length field or an integer is not a decimal number of 32 bits, or a
    /// length is negative.
    BadNumber,
    /// The text is not UTF-8.
    BadText,
    /// The frame does not start with a marker, or not with that of a known
    /// kind.
    BadMarker,
    /// The frame is of a kind that this decoder does not implement.
    Unsupported,
}

/// The offset of the first carriage return in `data`, or the length of `data`
/// if it holds none.
pub open spec fn line_end(data: Seq<u8>) -> int
    decreases data.len(),
{
    if data.len() == 0 {
        0
    } else if data[0] == 13 {
        0
    } else {
        1 + line_end(data.drop_first())
    }
}

/// `line_end` is the one offset before which no carriage return stands and at
/// which one does, unless the data ends there.
pub proof fn lemma_line_end_unique(data: Seq<u8>, p: int)
    requires
        0 <= p <= data.len(),
        forall|i: int| 0 <= i < p ==> data[i] != 13,
        p < data.len() ==> data[p] == 13,
    ensures
        line_end(data) == p,
    decreases p,
{
    if p > 0 {
        let rest = data.drop_first();
        assert forall|i: int| 0 <= i < p - 1 implies rest[i] != 13 by {
            assert(rest[i] == data[i + 1]);
        }
        lemma_line_end_unique(rest, p - 1);
    }
}

/// The offset of the first carriage return, if there is one.
pub fn find_cr(data: &[u8]) -> (r: Option<usize>)
    ensures
        match r {
            Some(p) => p < data@.len() && p == line_end(data@),
            None => line_end(data@) == data@.len(),
        },
{
    let n: usize = data.len();
    let mut i: usize = 0;
    while i < n
        invariant
            i <= n,
            n == data@.len(),
            forall|k: int| 0 <= k < i ==> data@[k] != 13,
        decreases n - i,
    {
        if data[i] == CR {
            proof {
                lemma_line_end_unique(data@, i as int);
            }
            return Some(i);
        }
        i = i + 1;
    }
    proof {
        lemma_line_end_unique(data@, n as int);
    }
    None
}

/// The length that a frame announces, and the offset at which its payload
/// starts: two bytes after the carriage return that ends the length field.
/// The field is what stands between the marker and that carriage return.
pub open spec fn length_field(data: Seq<u8>) -> Result<(i32, usize), DecodeError> {
    let pos = line_end(data);
    if pos >= data.len() || pos + 2 > usize::MAX {
        Err(DecodeError::Incomplete)
    } else if pos == 0 {
        Err(DecodeError::BadMarker)
    } else {
        match i32_value(data.subrange(1, pos)) {
            Some(n) => Ok((n, (pos + 2) as usize)),
            None => Err(DecodeError::BadNumber),
        }
    }
}

/// The text between the marker and the first carriage return, and the number
/// of bytes up to and including the line terminator.
pub open spec fn line_frame(data: Seq<u8>) -> Result<(Seq<char>, usize), DecodeError> {
    let pos = line_end(data);
    if pos >= data.len() || pos + 2 > usize::MAX {
        Err(DecodeError::Incomplete)
    } else if pos == 0 {
        Err(DecodeError::BadMarker)
    } else if !valid_utf8(data.subrange(1, pos)) {
        Err(DecodeError::BadText)
    } else {
        Ok((decode_utf8(data.subrange(1, pos)), (pos + 2) as usize))
    }
}

/// The integer between the marker and the first carriage return.
pub open spec fn integer_frame(data: Seq<u8>) -> Result<i32, DecodeError> {
    match length_field(data) {
        Ok((n, _)) => Ok(n),
        Err(e) => Err(e),
    }
}

/// The payload of a length-prefixed frame as text, and the number of bytes that
/// the frame takes, its trailing terminator included. The payload must lie
/// within the data; the trailing terminator need not.
pub open spec fn bulk_frame(data: Seq<u8>) -> Result<(Seq<char>, usize), DecodeError> {
    match length_field(data) {
        Err(e) => Err(e),
        Ok((len, start)) => {
            if len < 0 {
                Err(DecodeError::BadNumber)
            } else if start + len > data.len() || start + len + 2 > usize::MAX {
                Err(DecodeError::Incomplete)
            } else if !valid_utf8(data.subrange(start as int, start + len)) {
                Err(DecodeError::BadText)
            } else {
                Ok(
                    (
                        decode_utf8(data.subrange(start as int, start + len)),
                        (start + len + 2) as usize,
                    ),
                )
            }
        },
    }
}

/// A decoded text frame, with the text taken by its view.
pub open spec fn framed(r: Result<(String, usize), DecodeError>) -> Result<
    (Seq<char>, usize),
    DecodeError,
> {
    match r {
        Ok((text, used)) => Ok((text@, used)),
        Err(e) => Err(e),
    }
}

/// The arguments that follow in `data` from offset `from` on: frame after
/// frame until the data ends. There are none to be had if a frame does not
/// decode, or if the last one ends anywhere but at the end of the data.
pub open spec fn arguments_from(data: Seq<u8>, from: int) -> Option<Seq<Seq<char>>>
    decreases data.len() - from,
{
    if from < 0 || from > data.len() {
        None
    } else if from == data.len() {
        Some(Seq::empty())
    } else {
        match bulk_frame(data.subrange(from, data.len() as int)) {
            Err(_) => None,
            Ok((text, used)) => if used == 0 || from + used > data.len() {
                None
            } else {
                match arguments_from(data, from + used) {
                    Some(rest) => Some(seq![text] + rest),
                    None => None,
                }
            },
        }
    }
}

/// What `parse_arguments` returns: the arguments in the first `n` bytes of
/// the buffer, after the `length_till` bytes of the header and the
/// `command_till` bytes of the command name.
pub open spec fn arguments_of(
    buffer: Seq<u8>,
    length_till: usize,
    command_till: usize,
    n: usize,
) -> Option<Seq<Seq<char>>> {
    if n <= buffer.len() {
        arguments_from(buffer.subrange(0, n as int), length_till + command_till)
    } else {
        None
    }
}

/// `count` length-prefixed frames in `data` from offset `from` on, each with
/// the marker `$`: their texts, and the offset at which the last one ends.
pub open spec fn bulk_run(data: Seq<u8>, from: int, count: nat) -> Result<
    (Seq<Seq<char>>, usize),
    DecodeError,
>
    decreases count,
{
    if count == 0 {
        Ok((Seq::empty(), from as usize))
    } else if from < 0 || from >= data.len() {
        Err(DecodeError::Incomplete)
    } else if data[from] != 36 {
        Err(DecodeError::Unsupported)
    } else {
        match bulk_frame(data.subrange(from, data.len() as int)) {
            Err(e) => Err(e),
            Ok((text, used)) => if from + used > usize::MAX {
                Err(DecodeError::Incomplete)
            } else {
                match bulk_run(data, from + used, (count - 1) as nat) {
                    Err(e) => Err(e),
                    Ok((rest, end)) => Ok((seq![text] + rest, end)),
                }
            },
        }
    }
}

/// A list of values: a count, then as many length-prefixed frames.
pub open spec fn array_frame(data: Seq<u8>) -> Result<(Seq<Seq<char>>, usize), DecodeError> {
    match length_field(data) {
        Err(e) => Err(e),
        Ok((count, start)) => if count < 0 {
            Err(DecodeError::BadNumber)
        } else {
            bulk_run(data, start as int, count as nat)
        },
    }
}

/// The reply at the start of `data`, by its marker, and the number of bytes
/// that it takes.
pub open spec fn reply_frame(data: Seq<u8>) -> Result<(ReplyText, usize), DecodeError> {
    if data.len() == 0 {
        Err(DecodeError::Incomplete)
    } else if data[0] == 43 {
        match line_frame(data) {
            Ok((text, used)) => Ok((ReplyText::Status(text), used)),
            Err(e) => Err(e),
        }
    } else if data[0] == 45 {
        match line_frame(data) {
            Ok((text, used)) => Ok((ReplyText::Error(text), used)),
            Err(e) => Err(e),
        }
    } else if data[0] == 58 {
        match length_field(data) {
            Ok((n, used)) => Ok((ReplyText::Integer(n), used)),
            Err(e) => Err(e),
        }
    } else if data[0] == 36 {
        match length_field(data) {
            Ok((n, used)) => if n == -1 {
                Ok((ReplyText::Bulk(None), used))
            } else {
                match bulk_frame(data) {
                    Ok((text, used)) => Ok((ReplyText::Bulk(Some(text)), used)),
                    Err(e) => Err(e),
                }
            },
            Err(e) => Err(e),
        }
    } else if data[0] == 42 {
        match array_frame(data) {
            Ok((items, used)) => Ok((ReplyText::Array(items), used)),
            Err(e) => Err(e),
        }
    } else {
        Err(DecodeError::BadMarker)
    }
}

/// Reads the length field of a frame.
pub fn read_length(data: &[u8]) -> (r: Result<(i32, usize), DecodeError>)
    ensures
        r == length_field(data@),
{
    let pos: usize = match find_cr(data) {
        Some(p) => p,
        None => { return Err(DecodeError::Incomplete); },
    };
    if pos > usize::MAX - 2 {
        return Err(DecodeError::Incomplete);
    }
    if pos == 0 {
        return Err(DecodeError::BadMarker);
    }
    match parse_i32(slice_subrange(data, 1, pos)) {
        Some(n) => Ok((n, pos + 2)),
        None => Err(DecodeError::BadNumber),
    }
}

/// Reads one length-prefixed frame.
pub fn read_simple_string(data: &[u8]) -> (r: Result<(String, usize), DecodeError>)
    ensures
        framed(r) == bulk_frame(data@),
{
    let (length, start) = match read_length(data) {
        Ok(p) => p,
        Err(e) => { return Err(e); },
    };
    if length < 0 {
        return Err(DecodeError::BadNumber);
    }
    let len: usize = length as usize;
    if start > data.len() || len > data.len() - start {
        return Err(DecodeError::Incomplete);
    }
    let end: usize = start + len;
    if end > usize::MAX - 2 {
        return Err(DecodeError::Incomplete);
    }
    let payload = slice_to_vec(slice_subrange(data, start, end));
    match text_of(payload) {
        Some(text) => Ok((text, end + 2)),
        None => Err(DecodeError::BadText),
    }
}

/// Reads one line frame: the text after the marker, up to the carriage return.
pub fn read_line(data: &[u8]) -> (r: Result<(String, usize), DecodeError>)
    ensures
        framed(r) == line_frame(data@),
{
    let pos: usize = match find_cr(data) {
        Some(p) => p,
        None => { return Err(DecodeError::Incomplete); },
    };
    if pos > usize::MAX - 2 {
        return Err(DecodeError::Incomplete);
    }
    if pos == 0 {
        return Err(DecodeError::BadMarker);
    }
    let body = slice_to_vec(slice_subrange(data, 1, pos));
    match text_of(body) {
        Some(text) => Ok((text, pos + 2)),
        None => Err(DecodeError::BadText),
    }
}

/// Reads an error frame: its message and the bytes that it takes.
pub fn read_error(data: [u8; 1024]) -> (r: Result<(String, usize), DecodeError>)
    ensures
        framed(r) == line_frame(data@),
{
    read_line(data.as_slice())
}

/// Reads an integer frame.
pub fn read_integer(data: [u8; 1024]) -> (r: Result<i32, DecodeError>)
    ensures
        r == integer_frame(data@),
{
    match read_length(data.as_slice()) {
        Ok((n, _)) => Ok(n),
        Err(e) => Err(e),
    }
}

/// Reads a bulk string: the payload of a length-prefixed frame.
pub fn read_bulk_string(data: [u8; 1024]) -> (r: Result<String, DecodeError>)
    ensures
        match r {
            Ok(text) => bulk_frame(data@) matches Ok((t, _)) && t == text@,
            Err(e) => bulk_frame(data@) == Err::<(Seq<char>, usize), DecodeError>(e),
        },
{
    match read_simple_string(data.as_slice()) {
        Ok((text, _)) => Ok(text),
        Err(e) => Err(e),
    }
}

/// Reads `count` length-prefixed frames from offset `start` on.
fn read_bulks(data: &[u8], start: usize, count: usize) -> (r: Result<
    (Vec<String>, usize),
    DecodeError,
>)
    ensures
        match r {
            Ok((items, end)) => bulk_run(data@, start as int, count as nat) == Ok::<
                (Seq<Seq<char>>, usize),
                DecodeError,
            >((texts(items@), end)),
            Err(e) => bulk_run(data@, start as int, count as nat) == Err::<
                (Seq<Seq<char>>, usize),
                DecodeError,
            >(e),
        },
{
    let n: usize = data.len();
    let mut items: Vec<String> = Vec::new();
    let mut at: usize = start;
    let mut i: usize = 0;
    while i < count
        invariant
            i <= count,
            n == data@.len(),
            bulk_run(data@, start as int, count as nat) == match bulk_run(
                data@,
                at as int,
                (count - i) as nat,
            ) {
                Ok((rest, end)) => Ok::<(Seq<Seq<char>>, usize), DecodeError>(
                    (texts(items@) + rest, end),
                ),
                Err(e) => Err(e),
            },
        decreases count - i,
    {
        if at >= n {
            return Err(DecodeError::Incomplete);
        }
        if data[at] != 36 {
            return Err(DecodeError::Unsupported);
        }
        let (text, used) = match read_simple_string(slice_subrange(data, at, n)) {
            Ok(p) => p,
            Err(e) => { return Err(e); },
        };
        if used > usize::MAX - at {
            return Err(DecodeError::Incomplete);
        }
        proof {
            let next = bulk_run(data@, at + used, (count - i - 1) as nat);
            if next is Ok {
                assert(texts(items@.push(text)) + next->Ok_0.0 =~= texts(items@) + (seq![text@]
                    + next->Ok_0.0));
            }
        }
        items.push(text);
        at = at + used;
        i = i + 1;
    }
    assert(texts(items@) + Seq::<Seq<char>>::empty() =~= texts(items@));
    Ok((items, at))
}

fn read_list(data: &[u8]) -> (r: Result<(Vec<String>, usize), DecodeError>)
    ensures
        match r {
            Ok((items, end)) => array_frame(data@) == Ok::<(Seq<Seq<char>>, usize), DecodeError>(
                (texts(items@), end),
            ),
            Err(e) => array_frame(data@) == Err::<(Seq<Seq<char>>, usize), DecodeError>(e),
        },
{
    let (count, start) = match read_length(data) {
        Ok(p) => p,
        Err(e) => { return Err(e); },
    };
    if count < 0 {
        return Err(DecodeError::BadNumber);
    }
    read_bulks(data, start, count as usize)
}

/// Reads a list of values.
pub fn read_array(data: [u8; 1024]) -> (r: Result<Vec<String>, DecodeError>)
    ensures
        match r {
            Ok(items) => array_frame(data@) matches Ok((listed, _)) && listed == texts(items@),
            Err(e) => array_frame(data@) == Err::<(Seq<Seq<char>>, usize), DecodeError>(e),
        },
{
    match read_list(data.as_slice()) {
        Ok((items, _)) => Ok(items),
        Err(e) => Err(e),
    }
}

/// Reads one reply, of whatever kind, and says how many bytes it takes.
pub fn decode(data: &[u8]) -> (r: Result<(Reply, usize), DecodeError>)
    ensures
        match r {
            Ok((reply, used)) => reply_frame(data@) == Ok::<(ReplyText, usize), DecodeError>(
                (reply@, used),
            ),
            Err(e) => reply_frame(data@) == Err::<(ReplyText, usize), DecodeError>(e),
        },
{
    if data.len() == 0 {
        return Err(DecodeError::Incomplete);
    }
    let marker: u8 = data[0];
    if marker == 43 {
        match read_line(data) {
            Ok((text, used)) => Ok((Reply::Status(text), used)),
            Err(e) => Err(e),
        }
    } else if marker == 45 {
        match read_line(data) {
            Ok((text, used)) => Ok((Reply::Error(text), used)),
            Err(e) => Err(e),
        }
    } else if marker == 58 {
        match read_length(data) {
            Ok((n, used)) => Ok((Reply::Integer(n), used)),
            Err(e) => Err(e),
        }
    } else if marker == 36 {
        match read_length(data) {
            Ok((n, used)) => if n == -1 {
                Ok((Reply::Bulk(None), used))
            } else {
                match read_simple_string(data) {
                    Ok((text, used)) => Ok((Reply::Bulk(Some(text)), used)),
                    Err(e) => Err(e),
                }
            },
            Err(e) => Err(e),
        }
    } else if marker == 42 {
        match read_list(data) {
            Ok((items, used)) => Ok((Reply::Array(items), used)),
            Err(e) => Err(e),
        }
    } else {
        Err(DecodeError::BadMarker)
    }
}

/// Bulk errors are not implemented.
pub fn read_bulk_errors(data: [u8; 1024]) -> (r: Result<Vec<String>, DecodeError>)
    ensures
        r == Err::<Vec<String>, DecodeError>(DecodeError::Unsupported),
{
    Err(DecodeError::Unsupported)
}

/// Nulls of the typed kind are not implemented.
pub fn read_nulls(data: [u8; 1024]) -> (r: Result<Vec<String>, DecodeError>)
    ensures
        r == Err::<Vec<String>, DecodeError>(DecodeError::Unsupported),
{
    Err(DecodeError::Unsupported)
}

/// Booleans are not implemented.
pub fn read_booleans(data: [u8; 1024]) -> (r: Result<Vec<String>, DecodeError>)
    ensures
        r == Err::<Vec<String>, DecodeError>(DecodeError::Unsupported),
{
    Err(DecodeError::Unsupported)
}

/// Doubles are not implemented.
pub fn read_doubles(data: [u8; 1024]) -> (r: Result<Vec<String>, DecodeError>)
    ensures
        r == Err::<Vec<String>, DecodeError>(DecodeError::Unsupported),
{
    Err(DecodeError::Unsupported)
}

/// Big numbers are not implemented.
pub fn read_big_numbers(data: [u8; 1024]) -> (r: Result<Vec<String>, DecodeError>)
    ensures
        r == Err::<Vec<String>, DecodeError>(DecodeError::Unsupported),
{
    Err(DecodeError::Unsupported)
}

/// Maps are not implemented.
pub fn read_maps(data: [u8; 1024]) -> (r: Result<Vec<String>, DecodeError>)
    ensures
        r == Err::<Vec<String>, DecodeError>(DecodeError::Unsupported),
{
    Err(DecodeError::Unsupported)
}

/// Sets are not implemented.
pub fn read_sets(data: [u8; 1024]) -> (r: Result<Vec<String>, DecodeError>)
    ensures
        r == Err::<Vec<String>, DecodeError>(DecodeError::Unsupported),
{
    Err(DecodeError::Unsupported)
}

/// Attributes are not implemented.
pub fn read_attributes(data: [u8; 1024]) -> (r: Result<Vec<String>, DecodeError>)
    ensures
        r == Err::<Vec<String>, DecodeError>(DecodeError::Unsupported),
{
    Err(DecodeError::Unsupported)
}

/// Pushes are not implemented.
pub fn read_pushes(data: [u8; 1024]) -> (r: Result<Vec<String>, DecodeError>)
    ensures
        r == Err::<Vec<String>, DecodeError>(DecodeError::Unsupported),
{
    Err(DecodeError::Unsupported)
}

/// Reads the arguments of a command.
pub fn parse_arguments(buffer: &[u8], length_till: usize, command_till: usize, n: usize) -> (r:
    Option<Vec<String>>)
    ensures
        match r {
            Some(args) => arguments_of(buffer@, length_till, command_till, n) == Some(
                texts(args@),
            ),
            None => arguments_of(buffer@, length_till, command_till, n) is None,
        },
{
    if n > buffer.len() {
        return None;
    }
    let data = slice_subrange(buffer, 0, n);
    if length_till > n || command_till > n - length_till {
        return None;
    }
    let start: usize = length_till + command_till;
    let mut args: Vec<String> = Vec::new();
    let mut at: usize = start;
    while at < n
        invariant
            start <= at <= n,
            start == length_till + command_till,
            n == data@.len(),
            n <= buffer@.len(),
            data@ == buffer@.subrange(0, n as int),
            arguments_from(data@, start as int) == match arguments_from(data@, at as int) {
                Some(rest) => Some(texts(args@) + rest),
                None => None,
            },
        decreases n - at,
    {
        let (arg, used) = match read_simple_string(slice_subrange(data, at, n)) {
            Ok(p) => p,
            Err(_) => { return None; },
        };
        if used == 0 || used > n - at {
            return None;
        }
        proof {
            let rest = arguments_from(data@, at + used);
            if rest is Some {
                assert(texts(args@.push(arg)) + rest->0 =~= texts(args@) + (seq![arg@]
                    + rest->0));
            }
        }
        args.push(arg);
        at = at + used;
    }
    assert(texts(args@) + Seq::<Seq<char>>::empty() =~= texts(args@));
    Some(args)
}

} // verus!
