//! Replies as bytes, and the law of the codec: what the encoder writes, the
//! decoder reads back.

use vstd::prelude::*;
use vstd::utf8::*;

use crate::decimal::{
    decimal_bytes,
    decimal_text,
    lemma_decimal_round_trip,
    lemma_decimal_text_bytes,
    nat_digits,
};
use crate::reply::ReplyText;
use crate::resp_encoder::{bulk_text, bulks_text, crlf, reply_text};
use crate::resp_parser::{
    bulk_frame,
    bulk_run,
    lemma_line_end_unique,
    length_field,
    line_end,
    line_frame,
    reply_frame,
    DecodeError,
};
use crate::text::{ascii_text, lemma_ascii_encode, lemma_encode_concat};

verus! {

/// The bytes that a reply takes on the wire.
pub open spec fn reply_bytes(r: ReplyText) -> Seq<u8> {
    encode_utf8(reply_text(r))
}

/// The text holds no carriage return, so that it fits on one line.
pub open spec fn fits_line(t: Seq<char>) -> bool {
    forall|i: int| 0 <= i < t.len() ==> t[i] != '\r'
}

/// The text is short enough for its length to be written in 32 bits.
pub open spec fn fits_length(v: Seq<char>) -> bool {
    encode_utf8(v).len() <= i32::MAX
}

/// No length and no count in the reply leaves the range of 32 bits.
pub open spec fn lengths_fit(r: ReplyText) -> bool {
    match r {
        ReplyText::Bulk(Some(v)) => fits_length(v),
        ReplyText::Array(vs) => vs.len() <= i32::MAX && forall|i: int|
            0 <= i < vs.len() ==> fits_length(#[trigger] vs[i]),
        _ => true,
    }
}

/// A status or an error in the reply fits on one line.
pub open spec fn line_fits(r: ReplyText) -> bool {
    match r {
        ReplyText::Status(t) => fits_line(t),
        ReplyText::Error(t) => fits_line(t),
        _ => true,
    }
}

/// The reply is one that the decoder reads back as it is.
pub open spec fn comes_back(r: ReplyText) -> bool {
    line_fits(r) && lengths_fit(r)
}

/// The bytes of a scalar: itself if it is ASCII, else bytes beyond ASCII.
proof fn lemma_scalar_bytes(c: u32)
    requires
        is_scalar(c),
    ensures
        has_width_1_encoding(c) ==> encode_scalar(c) == seq![c as u8],
        !has_width_1_encoding(c) ==> forall|j: int|
            0 <= j < encode_scalar(c).len() ==> encode_scalar(c)[j] >= 0x80,
{
    if has_width_1_encoding(c) {
        assert((c & 0x7F) as u8 == c as u8) by (bit_vector)
            requires
                c <= 0x7F,
        ;
    } else {
        assert(forall|y: u8| 0xC0u8 | y >= 0x80u8) by (bit_vector);
        assert(forall|y: u8| 0xE0u8 | y >= 0x80u8) by (bit_vector);
        assert(forall|y: u8| 0xF0u8 | y >= 0x80u8) by (bit_vector);
        assert(forall|y: u8| 0x80u8 | y >= 0x80u8) by (bit_vector);
    }
}

/// A text without carriage return has none among its bytes.
pub proof fn lemma_line_bytes(t: Seq<char>)
    requires
        fits_line(t),
    ensures
        forall|j: int| 0 <= j < encode_utf8(t).len() ==> encode_utf8(t)[j] != 13,
    decreases t.len(),
{
    if t.len() > 0 {
        let c = t[0] as u32;
        char_is_scalar(t[0]);
        lemma_scalar_bytes(c);
        lemma_line_bytes(t.drop_first());
        assert(c != 13) by {
            char_u32_cast(t[0], c);
            char_u32_cast('\r', 13u32);
        }
        let head = encode_scalar(c);
        let tail = encode_utf8(t.drop_first());
        assert(encode_utf8(t) == head + tail);
        assert forall|j: int| 0 <= j < encode_utf8(t).len() implies encode_utf8(t)[j] != 13 by {
            if j < head.len() {
                assert(encode_utf8(t)[j] == head[j]);
            } else {
                assert(encode_utf8(t)[j] == tail[j - head.len()]);
            }
        }
    }
}

/// A marker, a text and a line end, in bytes.
proof fn lemma_frame_bytes(marker: u8, text: Seq<char>)
    requires
        marker < 128,
    ensures
        encode_utf8(seq![marker as char] + text + crlf()) == seq![marker] + encode_utf8(text)
            + seq![13u8, 10u8],
{
    let m = seq![marker];
    let e = seq![13u8, 10u8];
    lemma_ascii_encode(m);
    lemma_ascii_encode(e);
    assert(ascii_text(m) =~= seq![marker as char]);
    assert(ascii_text(e) =~= crlf());
    lemma_encode_concat(seq![marker as char] + text, crlf());
    lemma_encode_concat(seq![marker as char], text);
}

/// In a line frame, the line ends where its text ends.
proof fn lemma_line_of(marker: u8, body: Seq<u8>, rest: Seq<u8>)
    requires
        marker != 13,
        forall|j: int| 0 <= j < body.len() ==> body[j] != 13,
    ensures
        line_end(seq![marker] + body + seq![13u8, 10u8] + rest) == 1 + body.len(),
        (seq![marker] + body + seq![13u8, 10u8] + rest).subrange(1, 1 + body.len() as int) == body,
{
    let data = seq![marker] + body + seq![13u8, 10u8] + rest;
    let p = 1 + body.len();
    assert forall|i: int| 0 <= i < p implies data[i] != 13 by {
        if i > 0 {
            assert(data[i] == body[i - 1]);
        }
    }
    assert(data[p as int] == 13);
    lemma_line_end_unique(data, p as int);
    assert(data.subrange(1, p as int) =~= body);
}

/// The frame of a line reads back as its text.
proof fn lemma_line_frame(marker: u8, text: Seq<char>, rest: Seq<u8>)
    requires
        marker < 128,
        marker != 13,
        fits_line(text),
        encode_utf8(seq![marker as char] + text + crlf()).len() + rest.len() <= usize::MAX,
    ensures
        line_frame(encode_utf8(seq![marker as char] + text + crlf()) + rest) == Ok::<
            (Seq<char>, usize),
            DecodeError,
        >((text, encode_utf8(seq![marker as char] + text + crlf()).len() as usize)),
        (encode_utf8(seq![marker as char] + text + crlf()) + rest)[0] == marker,
{
    let body = encode_utf8(text);
    lemma_frame_bytes(marker, text);
    lemma_line_bytes(text);
    lemma_line_of(marker, body, rest);
    encode_utf8_valid_utf8(text);
    encode_utf8_decode_utf8(text);
}

/// The frame of a number reads back as the number.
proof fn lemma_number_frame(marker: u8, n: i32, rest: Seq<u8>)
    requires
        marker < 128,
        marker != 13,
        encode_utf8(seq![marker as char] + decimal_text(n as int) + crlf()).len() + rest.len()
            <= usize::MAX,
    ensures
        length_field(encode_utf8(seq![marker as char] + decimal_text(n as int) + crlf()) + rest)
            == Ok::<(i32, usize), DecodeError>(
            (n, encode_utf8(seq![marker as char] + decimal_text(n as int) + crlf()).len() as usize),
        ),
        (encode_utf8(seq![marker as char] + decimal_text(n as int) + crlf()) + rest)[0] == marker,
{
    let body = decimal_bytes(n as int);
    lemma_frame_bytes(marker, decimal_text(n as int));
    lemma_decimal_text_bytes(n as int);
    lemma_line_of(marker, body, rest);
    lemma_decimal_round_trip(n as int);
}

/// The frame of a value reads back as the value.
pub proof fn lemma_bulk_frame(v: Seq<char>, rest: Seq<u8>)
    requires
        fits_length(v),
        encode_utf8(bulk_text(v)).len() + rest.len() <= usize::MAX,
    ensures
        bulk_frame(encode_utf8(bulk_text(v)) + rest) == Ok::<(Seq<char>, usize), DecodeError>(
            (v, encode_utf8(bulk_text(v)).len() as usize),
        ),
        (encode_utf8(bulk_text(v)) + rest)[0] == 36,
        length_field(encode_utf8(bulk_text(v)) + rest) matches Ok((n, _)) && n >= 0,
{
    let payload = encode_utf8(v);
    let n = payload.len() as i32;
    let head = seq!['$'] + decimal_text(n as int) + crlf();
    let tail = payload + seq![13u8, 10u8] + rest;
    assert(seq!['$'] =~= seq![36u8 as char]);
    let ending = seq![13u8, 10u8];
    lemma_ascii_encode(ending);
    assert(ascii_text(ending) =~= crlf());
    lemma_encode_concat(head + v, crlf());
    lemma_encode_concat(head, v);
    assert(bulk_text(v) =~= head + v + crlf());
    let data = encode_utf8(bulk_text(v)) + rest;
    assert(data =~= encode_utf8(head) + tail);
    lemma_number_frame(36, n, tail);
    encode_utf8_valid_utf8(v);
    encode_utf8_decode_utf8(v);
    let start = encode_utf8(head).len();
    assert(data.subrange(start as int, start as int + n as int) =~= payload);
}

/// The frames of several values start with the frame of the first.
pub proof fn lemma_bulks_front(vs: Seq<Seq<char>>)
    requires
        vs.len() > 0,
    ensures
        bulks_text(vs) == bulk_text(vs[0]) + bulks_text(vs.drop_first()),
    decreases vs.len(),
{
    if vs.len() == 1 {
        assert(vs.drop_last() =~= Seq::<Seq<char>>::empty());
        assert(vs.drop_first() =~= Seq::<Seq<char>>::empty());
        assert(bulks_text(vs) =~= bulk_text(vs[0]) + bulks_text(vs.drop_first()));
    } else {
        lemma_bulks_front(vs.drop_last());
        assert(vs.drop_last().drop_first() =~= vs.drop_first().drop_last());
        assert(vs.drop_first().last() == vs.last());
        assert(vs.drop_last()[0] == vs[0]);
        assert(bulks_text(vs) =~= bulk_text(vs[0]) + bulks_text(vs.drop_first()));
    }
}

/// The frames of several values read back as the values.
proof fn lemma_bulk_run(before: Seq<u8>, vs: Seq<Seq<char>>, rest: Seq<u8>)
    requires
        forall|i: int| 0 <= i < vs.len() ==> fits_length(#[trigger] vs[i]),
        before.len() + encode_utf8(bulks_text(vs)).len() + rest.len() <= usize::MAX,
    ensures
        bulk_run(before + encode_utf8(bulks_text(vs)) + rest, before.len() as int, vs.len())
            == Ok::<(Seq<Seq<char>>, usize), DecodeError>(
            (vs, (before.len() + encode_utf8(bulks_text(vs)).len()) as usize),
        ),
    decreases vs.len(),
{
    let data = before + encode_utf8(bulks_text(vs)) + rest;
    if vs.len() == 0 {
        assert(vs =~= Seq::<Seq<char>>::empty());
    } else {
        let first = encode_utf8(bulk_text(vs[0]));
        let others = encode_utf8(bulks_text(vs.drop_first()));
        lemma_bulks_front(vs);
        lemma_encode_concat(bulk_text(vs[0]), bulks_text(vs.drop_first()));
        let from = before.len() as int;
        assert(data.subrange(from, data.len() as int) =~= first + (others + rest));
        lemma_bulk_frame(vs[0], others + rest);
        assert(data[from] == (first + (others + rest))[0]);
        assert(data =~= (before + first) + others + rest);
        lemma_bulk_run(before + first, vs.drop_first(), rest);
        assert(seq![vs[0]] + vs.drop_first() =~= vs);
    }
}

/// What the encoder writes, the decoder reads back: the bytes of a reply,
/// whatever follows them, decode to that reply and to their own number. This
/// holds of every reply that fits its frame (`comes_back`), in data that a
/// machine can hold.
pub proof fn lemma_decode_encode(r: ReplyText, rest: Seq<u8>)
    requires
        comes_back(r),
        reply_bytes(r).len() + rest.len() <= usize::MAX,
    ensures
        reply_frame(reply_bytes(r) + rest) == Ok::<(ReplyText, usize), DecodeError>(
            (r, reply_bytes(r).len() as usize),
        ),
{
    let data = reply_bytes(r) + rest;
    match r {
        ReplyText::Status(t) => {
            assert(seq!['+'] =~= seq![43u8 as char]);
            lemma_line_frame(43, t, rest);
        },
        ReplyText::Error(t) => {
            assert(seq!['-'] =~= seq![45u8 as char]);
            lemma_line_frame(45, t, rest);
        },
        ReplyText::Integer(n) => {
            assert(seq![':'] =~= seq![58u8 as char]);
            lemma_number_frame(58, n, rest);
        },
        ReplyText::Bulk(Some(v)) => {
            lemma_bulk_frame(v, rest);
        },
        ReplyText::Bulk(None) => {
            assert(decimal_text(-1) =~= seq!['-', '1']) by {
                reveal_with_fuel(nat_digits, 2);
                assert(decimal_bytes(-1) =~= seq![45u8, 49u8]);
            }
            assert(reply_text(r) =~= seq![36u8 as char] + decimal_text(-1) + crlf());
            lemma_number_frame(36, -1i32, rest);
        },
        ReplyText::Array(vs) => {
            let n = vs.len() as i32;
            let head = seq!['*'] + decimal_text(n as int) + crlf();
            assert(seq!['*'] =~= seq![42u8 as char]);
            lemma_encode_concat(head, bulks_text(vs));
            let before = encode_utf8(head);
            let items = encode_utf8(bulks_text(vs));
            assert(data =~= before + (items + rest));
            lemma_number_frame(42, n, items + rest);
            assert(data =~= before + items + rest);
            lemma_bulk_run(before, vs, rest);
        },
    }
}

} // verus!
