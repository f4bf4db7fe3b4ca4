use resp_store::db::DB;
use resp_store::reply::Reply;
use resp_store::resp_encoder::encode;
use resp_store::resp_parser::{decode, DecodeError};
use resp_store::server::{
    answer_at, answer_reading_at, argument_error, classify, name_of, parse_request,
    protocol_error, respond_at, writes, CommandKind, Request,
};

fn wire(parts: &[&str]) -> Vec<u8> {
    let mut text = format!("*{}\r\n", parts.len());
    for part in parts {
        text.push_str(&format!("${}\r\n{}\r\n", part.len(), part));
    }
    text.into_bytes()
}

fn send(db: &mut DB, parts: &[&str]) -> String {
    encode(&respond_at(db, &wire(parts), 0).reply)
}

fn send_at(db: &mut DB, parts: &[&str], now: u128) -> String {
    encode(&respond_at(db, &wire(parts), now).reply)
}

#[test]
fn set_get_del_get_end_to_end() {
    let mut db = DB::new();
    assert_eq!(send(&mut db, &["SET", "a", "1"]), "+OK\r\n");
    assert_eq!(send(&mut db, &["GET", "a"]), "$1\r\n1\r\n");
    assert_eq!(send(&mut db, &["DEL", "a"]), "+OK\r\n");
    assert_eq!(send(&mut db, &["GET", "a"]), "$-1\r\n");
}

#[test]
fn the_name_of_a_command_is_read_in_any_case() {
    let mut db = DB::new();
    assert_eq!(send(&mut db, &["set", "a", "1"]), "+OK\r\n");
    assert_eq!(send(&mut db, &["GeT", "a"]), "$1\r\n1\r\n");
    assert_eq!(send(&mut db, &["PING"]), "+PONG\r\n");
    assert_eq!(send(&mut db, &["FlushAll"]), "+OK\r\n");
}

#[test]
fn arguments_are_passed_on_as_they_are() {
    let mut db = DB::new();
    assert_eq!(send(&mut db, &["SET", "Key", "VaLuE"]), "+OK\r\n");
    assert_eq!(send(&mut db, &["GET", "Key"]), "$5\r\nVaLuE\r\n");
    assert_eq!(send(&mut db, &["GET", "key"]), "$-1\r\n");
}

#[test]
fn a_value_may_hold_line_ends() {
    let mut db = DB::new();
    assert_eq!(send(&mut db, &["SET", "a", "x\r\ny"]), "+OK\r\n");
    assert_eq!(send(&mut db, &["GET", "a"]), "$4\r\nx\r\ny\r\n");
}

#[test]
fn set_takes_two_arguments_or_more() {
    let mut db = DB::new();
    assert_eq!(
        send(&mut db, &["SET", "a"]),
        "-ERR wrong number of arguments for 'set' command\r\n"
    );
    assert_eq!(send(&mut db, &["SET"]), "-ERR wrong number of arguments for 'set' command\r\n");
    assert_eq!(send(&mut db, &["SET", "a", "1", "EX", "10"]), "+OK\r\n");
    assert_eq!(send_at(&mut db, &["GET", "a"], u128::MAX), "$1\r\n1\r\n");
}

#[test]
fn commands_of_one_argument_take_one() {
    let mut db = DB::new();
    for name in ["get", "del", "keys", "incr", "decr", "echo"] {
        let error = format!("-ERR wrong number of arguments for '{}' command\r\n", name);
        assert_eq!(send(&mut db, &[name]), error);
        assert_eq!(send(&mut db, &[name, "a", "b"]), error);
    }
    assert_eq!(send(&mut db, &["keys", ""]), "*0\r\n");
}

#[test]
fn the_error_names_the_command_in_lower_case() {
    let mut db = DB::new();
    assert_eq!(send(&mut db, &["GET"]), "-ERR wrong number of arguments for 'get' command\r\n");
}

#[test]
fn exists_counts_among_all_keys() {
    let mut db = DB::new();
    send(&mut db, &["SET", "a", "1"]);
    send(&mut db, &["SET", "b", "2"]);
    assert_eq!(send(&mut db, &["EXISTS", "a", "b", "c"]), ":2\r\n");
    assert_eq!(send(&mut db, &["EXISTS", "c"]), ":0\r\n");
    assert_eq!(
        send(&mut db, &["EXISTS"]),
        "-ERR wrong number of arguments for 'exists' command\r\n"
    );
}

#[test]
fn keys_answers_with_a_list() {
    let mut db = DB::new();
    send(&mut db, &["SET", "foo", "1"]);
    send(&mut db, &["SET", "foobar", "2"]);
    send(&mut db, &["SET", "baz", "3"]);
    let reply = respond_at(&mut db, &wire(&["KEYS", "foo"]), 0).reply;
    match reply {
        Reply::Array(mut keys) => {
            keys.sort();
            assert_eq!(keys, vec!["foo".to_string(), "foobar".to_string()]);
        }
        other => panic!("no list: {:?}", other),
    }
}

#[test]
fn incr_and_decr_answer_with_the_count() {
    let mut db = DB::new();
    assert_eq!(send(&mut db, &["INCR", "n"]), ":1\r\n");
    assert_eq!(send(&mut db, &["INCR", "n"]), ":2\r\n");
    assert_eq!(send(&mut db, &["DECR", "n"]), ":1\r\n");
    assert_eq!(send(&mut db, &["DECR", "m"]), ":-1\r\n");
    assert_eq!(send(&mut db, &["GET", "n"]), "$1\r\n1\r\n");
}

#[test]
fn incr_of_text_is_a_type_error() {
    let mut db = DB::new();
    send(&mut db, &["SET", "k", "abc"]);
    assert_eq!(send(&mut db, &["INCR", "k"]), "-ERR value is not an integer or out of range\r\n");
    assert_eq!(send(&mut db, &["DECR", "k"]), "-ERR value is not an integer or out of range\r\n");
    assert_eq!(send(&mut db, &["GET", "k"]), "$3\r\nabc\r\n");
    send(&mut db, &["SET", "top", "2147483647"]);
    assert_eq!(
        send(&mut db, &["INCR", "top"]),
        "-ERR value is not an integer or out of range\r\n"
    );
}

#[test]
fn ping_answers_pong_or_echoes() {
    let mut db = DB::new();
    assert_eq!(send(&mut db, &["PING"]), "+PONG\r\n");
    assert_eq!(send(&mut db, &["PING", "hello"]), "$5\r\nhello\r\n");
    assert_eq!(send(&mut db, &["PING", "a", "b"]), "$1\r\na\r\n");
}

#[test]
fn ping_with_arguments_that_do_not_decode_answers_pong() {
    let mut db = DB::new();
    let out = respond_at(&mut db, b"*2\r\n$4\r\nPING\r\n$5\r\nhel", 0);
    assert_eq!(encode(&out.reply), "+PONG\r\n");
}

#[test]
fn echo_answers_with_its_argument() {
    let mut db = DB::new();
    assert_eq!(send(&mut db, &["ECHO", "hello"]), "$5\r\nhello\r\n");
    assert_eq!(send(&mut db, &["ECHO", ""]), "$0\r\n\r\n");
}

#[test]
fn flushall_empties_the_store_for_keys() {
    let mut db = DB::new();
    send(&mut db, &["SET", "a", "1"]);
    send(&mut db, &["SET", "b", "2"]);
    assert_eq!(send(&mut db, &["FLUSHALL"]), "+OK\r\n");
    assert_eq!(send(&mut db, &["KEYS", ""]), "*0\r\n");
}

#[test]
fn quit_closes_the_connection() {
    let mut db = DB::new();
    let out = respond_at(&mut db, &wire(&["QUIT"]), 0);
    assert_eq!(encode(&out.reply), "+OK\r\n");
    assert!(out.close);
    assert!(!respond_at(&mut db, &wire(&["PING"]), 0).close);
    assert!(!respond_at(&mut db, &wire(&["nonsense"]), 0).close);
}

#[test]
fn command_and_client_are_acknowledged() {
    let mut db = DB::new();
    assert_eq!(send(&mut db, &["COMMAND"]), "+OK\r\n");
    assert_eq!(send(&mut db, &["COMMAND", "DOCS"]), "+OK\r\n");
    assert_eq!(send(&mut db, &["CLIENT", "SETNAME", "x"]), "+OK\r\n");
}

#[test]
fn expire_and_ttl_are_not_supported() {
    let mut db = DB::new();
    send(&mut db, &["SET", "a", "1"]);
    assert_eq!(send(&mut db, &["EXPIRE", "a", "1"]), "-ERR 'expire' command is not supported\r\n");
    assert_eq!(send(&mut db, &["TTL", "a"]), "-ERR 'ttl' command is not supported\r\n");
    assert_eq!(send_at(&mut db, &["GET", "a"], u128::MAX), "$1\r\n1\r\n");
}

#[test]
fn an_unknown_command_is_reported_with_what_follows_it() {
    let mut db = DB::new();
    assert_eq!(
        send(&mut db, &["FOO", "a"]),
        "-ERR unknown command `FOO`, with args beginning with:$1\r\na\r\n\r\n"
    );
    assert_eq!(
        send(&mut db, &["Nope"]),
        "-ERR unknown command `Nope`, with args beginning with:\r\n"
    );
}

#[test]
fn what_follows_an_unknown_command_need_not_be_text() {
    let mut db = DB::new();
    let out = respond_at(&mut db, b"*2\r\n$3\r\nFOO\r\n\xff\xfe", 0);
    assert_eq!(
        encode(&out.reply),
        "-ERR unknown command `FOO`, with args beginning with:\u{fffd}\u{fffd}\r\n"
    );
}

#[test]
fn a_request_that_does_not_decode_is_a_protocol_error() {
    let mut db = DB::new();
    let requests = [
        &b""[..],
        b"garbage",
        b"*1",
        b"*x\r\n$4\r\nPING\r\n",
        b"*1\r\n",
        b"*1\r\n$4\r\nPI",
        b"*1\r\nPING\r\n",
        b"*1\r\n$2\r\n\xff\xff\r\n",
        b"*1\r",
    ];
    for request in requests {
        let out = respond_at(&mut db, request, 0);
        assert_eq!(encode(&out.reply), "-ERR protocol error\r\n", "{:?}", request);
        assert!(!out.close);
    }
}

#[test]
fn the_count_of_the_header_is_not_held_against_the_frames() {
    let mut db = DB::new();
    let out = respond_at(&mut db, b"*7\r\n$4\r\nPING\r\n", 0);
    assert_eq!(encode(&out.reply), "+PONG\r\n");
}

#[test]
fn arguments_that_stop_short_are_an_argument_error() {
    let mut db = DB::new();
    let out = respond_at(&mut db, b"*2\r\n$3\r\nGET\r\n$5\r\nab", 0);
    assert_eq!(encode(&out.reply), "-ERR wrong number of arguments for 'get' command\r\n");
    let out = respond_at(&mut db, b"*3\r\n$3\r\nSET\r\n$1\r\na\r\n$1\r\n1", 0);
    assert_eq!(encode(&out.reply), "-ERR wrong number of arguments for 'set' command\r\n");
    assert_eq!(send(&mut db, &["GET", "a"]), "$-1\r\n");
}

#[test]
fn get_does_not_return_what_has_expired() {
    let mut db = DB::new();
    db.set_at("a".to_string(), "1".to_string(), Some(10), 0);
    assert_eq!(send_at(&mut db, &["GET", "a"], 9), "$1\r\n1\r\n");
    assert_eq!(send_at(&mut db, &["EXISTS", "a"], 10), ":0\r\n");
    assert_eq!(send_at(&mut db, &["KEYS", ""], 10), "*0\r\n");
    assert_eq!(send_at(&mut db, &["GET", "a"], 10), "$-1\r\n");
}

#[test]
fn takes_a_request_apart() {
    let req = parse_request(&wire(&["Set", "a", "1"])).unwrap();
    assert_eq!(req.name, "Set");
    assert_eq!(req.kind, CommandKind::SetKey);
    assert_eq!(req.args, Some(vec!["a".to_string(), "1".to_string()]));
    assert_eq!(req.trailing, "");
    let req = parse_request(&wire(&["what", "a"])).unwrap();
    assert_eq!(req.kind, CommandKind::Unknown);
    assert_eq!(req.trailing, "$1\r\na\r\n");
    let req = parse_request(b"*1\r\n$4\r\nPING").unwrap();
    assert_eq!(req.kind, CommandKind::Ping);
    assert_eq!(req.args, None);
}

#[test]
fn says_why_a_request_does_not_decode() {
    assert_eq!(parse_request(b"*1").unwrap_err(), DecodeError::Incomplete);
    assert_eq!(parse_request(b"*1\r").unwrap_err(), DecodeError::Incomplete);
    assert_eq!(parse_request(b"*x\r\n").unwrap_err(), DecodeError::BadNumber);
    assert_eq!(parse_request(b"\r\n").unwrap_err(), DecodeError::BadMarker);
    assert_eq!(parse_request(b"*1\r\n$1\r\n\xff\r\n").unwrap_err(), DecodeError::BadText);
    assert_eq!(parse_request(b"*1\r\n$-1\r\n").unwrap_err(), DecodeError::BadNumber);
}

#[test]
fn knows_each_command_by_its_name() {
    let kinds = [
        ("get", CommandKind::Get),
        ("set", CommandKind::SetKey),
        ("del", CommandKind::Del),
        ("expire", CommandKind::Expire),
        ("exists", CommandKind::Exists),
        ("keys", CommandKind::Keys),
        ("incr", CommandKind::Incr),
        ("decr", CommandKind::Decr),
        ("quit", CommandKind::Quit),
        ("ping", CommandKind::Ping),
        ("echo", CommandKind::Echo),
        ("ttl", CommandKind::Ttl),
        ("flushall", CommandKind::Flushall),
        ("command", CommandKind::Command),
        ("client", CommandKind::Client),
    ];
    for (name, kind) in kinds {
        assert_eq!(classify(name), kind);
        assert_eq!(name_of(kind), name);
    }
    assert_eq!(classify("GET"), CommandKind::Unknown);
    assert_eq!(classify(""), CommandKind::Unknown);
    assert_eq!(classify("gets"), CommandKind::Unknown);
}

#[test]
fn knows_which_commands_may_change_the_store() {
    for kind in [
        CommandKind::Get,
        CommandKind::SetKey,
        CommandKind::Del,
        CommandKind::Incr,
        CommandKind::Decr,
        CommandKind::Flushall,
    ] {
        assert!(writes(kind));
    }
    for kind in [
        CommandKind::Exists,
        CommandKind::Keys,
        CommandKind::Ping,
        CommandKind::Echo,
        CommandKind::Quit,
        CommandKind::Expire,
        CommandKind::Ttl,
        CommandKind::Command,
        CommandKind::Client,
        CommandKind::Unknown,
    ] {
        assert!(!writes(kind));
    }
}

#[test]
fn runs_a_reading_command_on_a_shared_store() {
    let mut db = DB::new();
    db.set("a".to_string(), "1".to_string(), None);
    let req = parse_request(&wire(&["EXISTS", "a", "b"])).unwrap();
    assert!(!writes(req.kind));
    let out = answer_reading_at(&db, req, 0);
    assert_eq!(out.reply, Reply::Integer(1));
    let req = parse_request(&wire(&["KEYS", "a"])).unwrap();
    assert_eq!(answer_reading_at(&db, req, 0).reply, Reply::Array(vec!["a".to_string()]));
}

#[test]
fn runs_a_request_that_was_taken_apart() {
    let mut db = DB::new();
    let req = Request {
        name: "SET".to_string(),
        kind: CommandKind::SetKey,
        args: Some(vec!["a".to_string(), "1".to_string()]),
        trailing: String::new(),
    };
    assert_eq!(answer_at(&mut db, req, 0).reply, Reply::Status("OK".to_string()));
    assert_eq!(db.get(&"a".to_string()), Some("1".to_string()));
}

#[test]
fn makes_the_fixed_replies() {
    assert_eq!(
        argument_error("get"),
        Reply::Error("ERR wrong number of arguments for 'get' command".to_string())
    );
    let out = protocol_error();
    assert_eq!(out.reply, Reply::Error("ERR protocol error".to_string()));
    assert!(!out.close);
}

#[test]
fn what_the_dispatcher_answers_decodes_to_itself() {
    let mut db = DB::new();
    let requests: Vec<Vec<&str>> = vec![
        vec!["SET", "a", "1"],
        vec!["SET", "b", "two\r\nlines"],
        vec!["GET", "a"],
        vec!["GET", "b"],
        vec!["GET", "none"],
        vec!["GET"],
        vec!["EXISTS", "a", "b", "c"],
        vec!["KEYS", ""],
        vec!["INCR", "a"],
        vec!["DECR", "b"],
        vec!["PING"],
        vec!["PING", "hi"],
        vec!["ECHO", "x\ry"],
        vec!["TTL", "a"],
        vec!["EXPIRE", "a", "1"],
        vec!["COMMAND"],
        vec!["nonsense"],
        vec!["DEL", "a"],
        vec!["FLUSHALL"],
        vec!["QUIT"],
    ];
    for request in requests {
        let out = respond_at(&mut db, &wire(&request), 0);
        let text = encode(&out.reply);
        let (back, used) = decode(text.as_bytes()).unwrap();
        assert_eq!(back, out.reply, "{:?}", request);
        assert_eq!(used, text.len());
    }
}

#[test]
fn an_unknown_command_with_arguments_does_not_decode_to_itself() {
    let mut db = DB::new();
    let out = respond_at(&mut db, &wire(&["FOO", "a"]), 0);
    let text = encode(&out.reply);
    let (back, _) = decode(text.as_bytes()).unwrap();
    assert_ne!(back, out.reply);
}
