use resp_store::reply::Reply;
use resp_store::resp_parser::{
    decode, find_cr, parse_arguments, read_array, read_attributes, read_big_numbers,
    read_booleans, read_bulk_errors, read_bulk_string, read_doubles, read_error, read_integer,
    read_length, read_line, read_maps, read_nulls, read_pushes, read_sets, read_simple_string,
    DecodeError,
};

fn block(bytes: &[u8]) -> [u8; 1024] {
    let mut data = [0u8; 1024];
    data[..bytes.len()].copy_from_slice(bytes);
    data
}

#[test]
fn finds_the_first_carriage_return() {
    assert_eq!(find_cr(b"$6\r\nfoobar\r\n"), Some(2));
    assert_eq!(find_cr(b"\r"), Some(0));
    assert_eq!(find_cr(b"abc"), None);
    assert_eq!(find_cr(b""), None);
}

#[test]
fn reads_a_length() {
    assert_eq!(read_length(b"$6\r\nfoobar\r\n"), Ok((6, 4)));
    assert_eq!(read_length(b"*12\r\n"), Ok((12, 5)));
    assert_eq!(read_length(b"$-1\r\n"), Ok((-1, 5)));
    assert_eq!(read_length(b"$0\r"), Ok((0, 4)));
}

#[test]
fn a_length_without_carriage_return_is_incomplete() {
    assert_eq!(read_length(b"$6"), Err(DecodeError::Incomplete));
    assert_eq!(read_length(b""), Err(DecodeError::Incomplete));
}

#[test]
fn a_length_that_is_no_number_is_refused() {
    assert_eq!(read_length(b"$x\r\n"), Err(DecodeError::BadNumber));
    assert_eq!(read_length(b"$\r\n"), Err(DecodeError::BadNumber));
    assert_eq!(read_length(b"$99999999999\r\n"), Err(DecodeError::BadNumber));
    assert_eq!(read_length(b"$\xff\r\n"), Err(DecodeError::BadNumber));
}

#[test]
fn a_frame_without_marker_is_refused() {
    assert_eq!(read_length(b"\r\n"), Err(DecodeError::BadMarker));
    assert_eq!(read_line(b"\r\n"), Err(DecodeError::BadMarker));
}

#[test]
fn reads_a_length_prefixed_frame() {
    assert_eq!(read_simple_string(b"$6\r\nfoobar\r\n"), Ok(("foobar".to_string(), 12)));
    assert_eq!(read_simple_string(b"$0\r\n\r\n"), Ok((String::new(), 6)));
    assert_eq!(read_simple_string(b"$3\r\nfoo\r\n$3\r\nbar\r\n"), Ok(("foo".to_string(), 9)));
}

#[test]
fn a_payload_may_hold_line_ends() {
    assert_eq!(read_simple_string(b"$4\r\na\r\nb\r\n"), Ok(("a\r\nb".to_string(), 10)));
}

#[test]
fn a_payload_may_hold_text_beyond_ascii() {
    let frame = "$7\r\ngr\u{fc}\u{df}e\r\n";
    assert_eq!(read_simple_string(frame.as_bytes()), Ok(("gr\u{fc}\u{df}e".to_string(), 13)));
}

#[test]
fn the_trailing_terminator_is_counted_though_it_may_be_missing() {
    assert_eq!(read_simple_string(b"$3\r\nfoo"), Ok(("foo".to_string(), 9)));
}

#[test]
fn a_payload_that_runs_past_the_end_is_incomplete() {
    assert_eq!(read_simple_string(b"$6\r\nfoo"), Err(DecodeError::Incomplete));
    assert_eq!(read_simple_string(b"$1\r"), Err(DecodeError::Incomplete));
    assert_eq!(read_simple_string(b"$6"), Err(DecodeError::Incomplete));
}

#[test]
fn a_negative_length_has_no_payload() {
    assert_eq!(read_simple_string(b"$-1\r\n"), Err(DecodeError::BadNumber));
}

#[test]
fn a_payload_that_is_not_text_is_refused() {
    assert_eq!(read_simple_string(b"$2\r\n\xff\xfe\r\n"), Err(DecodeError::BadText));
    assert_eq!(read_line(b"+\xc3\r\n"), Err(DecodeError::BadText));
}

#[test]
fn decoding_twice_gives_the_same() {
    let data = b"$6\r\nfoobar\r\n";
    assert_eq!(read_simple_string(data), read_simple_string(data));
    assert_eq!(read_length(data), read_length(data));
}

#[test]
fn reads_a_line() {
    assert_eq!(read_line(b"+OK\r\n"), Ok(("OK".to_string(), 5)));
    assert_eq!(read_line(b"+\r\n"), Ok((String::new(), 3)));
    assert_eq!(read_line(b"+OK"), Err(DecodeError::Incomplete));
}

#[test]
fn reads_an_error_frame() {
    assert_eq!(
        read_error(block(b"-Error message\r\n")),
        Ok(("Error message".to_string(), 16))
    );
    assert_eq!(read_error(block(b"-no end")), Err(DecodeError::Incomplete));
}

#[test]
fn reads_an_integer_frame() {
    assert_eq!(read_integer(block(b":1000\r\n")), Ok(1000));
    assert_eq!(read_integer(block(b":-5\r\n")), Ok(-5));
    assert_eq!(read_integer(block(b":five\r\n")), Err(DecodeError::BadNumber));
    assert_eq!(read_integer(block(b":5")), Err(DecodeError::Incomplete));
}

#[test]
fn reads_a_bulk_string() {
    assert_eq!(read_bulk_string(block(b"$3\r\nfoo\r\n")), Ok("foo".to_string()));
    assert_eq!(read_bulk_string(block(b"$0\r\n\r\n")), Ok(String::new()));
    assert_eq!(read_bulk_string(block(b"$4\r\na\r\nb\r\n")), Ok("a\r\nb".to_string()));
    for text in ["x", "hello world", "gr\u{fc}\u{df}e"] {
        let frame = format!("${}\r\n{}\r\n", text.len(), text);
        assert_eq!(read_bulk_string(block(frame.as_bytes())), Ok(text.to_string()));
    }
}

#[test]
fn a_bulk_string_that_does_not_decode_is_refused() {
    assert_eq!(read_bulk_string(block(b"$3")), Err(DecodeError::Incomplete));
    assert_eq!(read_bulk_string(block(b"$2000\r\nfoo\r\n")), Err(DecodeError::Incomplete));
    assert_eq!(read_bulk_string(block(b"+PONG\r\n")), Err(DecodeError::BadNumber));
    assert_eq!(read_bulk_string(block(b"$-1\r\n")), Err(DecodeError::BadNumber));
    assert_eq!(read_bulk_string(block(b"$2\r\n\xff\xfe\r\n")), Err(DecodeError::BadText));
}

#[test]
fn reads_a_list() {
    assert_eq!(
        read_array(block(b"*2\r\n$3\r\nfoo\r\n$6\r\nfoobar\r\n")),
        Ok(vec!["foo".to_string(), "foobar".to_string()])
    );
    assert_eq!(read_array(block(b"*0\r\n")), Ok(vec![]));
}

#[test]
fn a_list_with_too_few_items_is_incomplete() {
    let mut data = [b'x'; 1024];
    let head = b"*2\r\n$1018\r\n";
    data[..head.len()].copy_from_slice(head);
    assert_eq!(read_array(data), Err(DecodeError::Incomplete));
}

#[test]
fn a_list_of_lists_is_not_supported() {
    assert_eq!(read_array(block(b"*1\r\n*1\r\n$1\r\na\r\n")), Err(DecodeError::Unsupported));
    assert_eq!(read_array(block(b"*-1\r\n")), Err(DecodeError::BadNumber));
}

#[test]
fn other_kinds_of_frame_are_not_supported() {
    let data = block(b"#t\r\n");
    assert_eq!(read_bulk_errors(data), Err(DecodeError::Unsupported));
    assert_eq!(read_nulls(data), Err(DecodeError::Unsupported));
    assert_eq!(read_booleans(data), Err(DecodeError::Unsupported));
    assert_eq!(read_doubles(data), Err(DecodeError::Unsupported));
    assert_eq!(read_big_numbers(data), Err(DecodeError::Unsupported));
    assert_eq!(read_maps(data), Err(DecodeError::Unsupported));
    assert_eq!(read_sets(data), Err(DecodeError::Unsupported));
    assert_eq!(read_attributes(data), Err(DecodeError::Unsupported));
    assert_eq!(read_pushes(data), Err(DecodeError::Unsupported));
}

#[test]
fn parses_the_arguments_of_a_command() {
    let buffer = b"*3\r\n$3\r\nSET\r\n$1\r\na\r\n$2\r\n10\r\n";
    assert_eq!(
        parse_arguments(buffer, 4, 9, buffer.len()),
        Some(vec!["a".to_string(), "10".to_string()])
    );
}

#[test]
fn a_command_without_arguments_has_an_empty_list() {
    let buffer = b"*1\r\n$4\r\nPING\r\n";
    assert_eq!(parse_arguments(buffer, 4, 10, buffer.len()), Some(vec![]));
}

#[test]
fn arguments_are_read_from_the_first_n_bytes_only() {
    let mut buffer = [0u8; 500];
    let request = b"*2\r\n$3\r\nGET\r\n$1\r\na\r\n";
    buffer[..request.len()].copy_from_slice(request);
    assert_eq!(parse_arguments(&buffer, 4, 9, request.len()), Some(vec!["a".to_string()]));
}

#[test]
fn truncated_arguments_are_none() {
    let buffer = b"*2\r\n$3\r\nGET\r\n$1\r\na\r\n";
    assert_eq!(parse_arguments(buffer, 4, 9, buffer.len() - 1), None);
    assert_eq!(parse_arguments(buffer, 4, 9, buffer.len() - 3), None);
    assert_eq!(parse_arguments(b"*2\r\n$3\r\nGET\r\n$5\r\nab", 4, 9, 19), None);
}

#[test]
fn malformed_arguments_are_none() {
    assert_eq!(parse_arguments(b"*2\r\n$3\r\nGET\r\n$x\r\na\r\n", 4, 9, 20), None);
    assert_eq!(parse_arguments(b"*2\r\n$3\r\nGET\r\ngarbage", 4, 9, 20), None);
}

#[test]
fn offsets_beyond_the_buffer_are_none() {
    let buffer = b"*1\r\n$4\r\nPING";
    assert_eq!(parse_arguments(buffer, 4, 10, buffer.len()), None);
    assert_eq!(parse_arguments(buffer, 4, 8, buffer.len() + 1), None);
    assert_eq!(parse_arguments(buffer, usize::MAX, usize::MAX, buffer.len()), None);
}

#[test]
fn decodes_each_kind_of_reply() {
    assert_eq!(decode(b"+OK\r\n"), Ok((Reply::Status("OK".to_string()), 5)));
    assert_eq!(decode(b"-ERR no\r\n"), Ok((Reply::Error("ERR no".to_string()), 9)));
    assert_eq!(decode(b":-12\r\n"), Ok((Reply::Integer(-12), 6)));
    assert_eq!(decode(b"$-1\r\n"), Ok((Reply::Bulk(None), 5)));
    assert_eq!(decode(b"$3\r\nfoo\r\n"), Ok((Reply::Bulk(Some("foo".to_string())), 9)));
    assert_eq!(
        decode(b"*2\r\n$1\r\na\r\n$1\r\nb\r\n"),
        Ok((Reply::Array(vec!["a".to_string(), "b".to_string()]), 18))
    );
}

#[test]
fn decodes_the_first_reply_of_several() {
    assert_eq!(decode(b"+OK\r\n+PONG\r\n"), Ok((Reply::Status("OK".to_string()), 5)));
}

#[test]
fn refuses_replies_that_do_not_decode() {
    assert_eq!(decode(b""), Err(DecodeError::Incomplete));
    assert_eq!(decode(b"?what\r\n"), Err(DecodeError::BadMarker));
    assert_eq!(decode(b"\r\n"), Err(DecodeError::BadMarker));
    assert_eq!(decode(b"$-2\r\n"), Err(DecodeError::BadNumber));
    assert_eq!(decode(b":x\r\n"), Err(DecodeError::BadNumber));
    assert_eq!(decode(b"*1\r\n:1\r\n"), Err(DecodeError::Unsupported));
    assert_eq!(decode(b"*1\r\n"), Err(DecodeError::Incomplete));
    assert_eq!(decode(b"+\xff\r\n"), Err(DecodeError::BadText));
}
