//! The command dispatcher: from the bytes of one request to one reply.
//!
//! `parse_request` takes a request apart without touching the store, so that
//! a caller can tell from `writes` what access to the store the request needs
//! before it asks for it. `answer_at` and `answer_reading_at` then run the
//! command; `respond_at` does both steps in one.

use vstd::prelude::*;
use vstd::slice::*;
use vstd::string::*;
use vstd::utf8::*;

use crate::cmd::{live_count, Commands};
use crate::db::{
    counter_result,
    counter_store,
    lists_keys,
    store_get,
    store_purge,
    store_set,
    CounterError,
    Store,
    DB,
};
use crate::reply::{Reply, ReplyText};
use crate::resp_parser::{
    arguments_from,
    bulk_frame,
    length_field,
    parse_arguments,
    read_length,
    read_simple_string,
    DecodeError,
};
use crate::text::{lossy_text, lowercase, lowercase_text, same_text, text_of_lossy, texts};
use crate::resp_parser::reply_frame;
use crate::wire::{fits_line, lemma_decode_encode, lengths_fit, reply_bytes};

verus! {

/// The commands that the dispatcher knows, and one kind for all others.
#[derive(Clone, Copy, Debug, PartialEq, Eq)]
pub enum CommandKind {
    Get,
    SetKey,
    Del,
    /// Known by name; not implemented.
    Expire,
    Exists,
    Keys,
    Incr,
    Decr,
    Quit,
    Ping,
    Echo,
    /// Known by name; not implemented.
    Ttl,
    Flushall,
    Command,
    Client,
    Unknown,
}

/// The kind of the command with this name, the name being in lower case.
pub open spec fn kind_of(lowered: Seq<char>) -> CommandKind {
    if lowered == "get"@ {
        CommandKind::Get
    } else if lowered == "set"@ {
        CommandKind::SetKey
    } else if lowered == "del"@ {
        CommandKind::Del
    } else if lowered == "expire"@ {
        CommandKind::Expire
    } else if lowered == "exists"@ {
        CommandKind::Exists
    } else if lowered == "keys"@ {
        CommandKind::Keys
    } else if lowered == "incr"@ {
        CommandKind::Incr
    } else if lowered == "decr"@ {
        CommandKind::Decr
    } else if lowered == "quit"@ {
        CommandKind::Quit
    } else if lowered == "ping"@ {
        CommandKind::Ping
    } else if lowered == "echo"@ {
        CommandKind::Echo
    } else if lowered == "ttl"@ {
        CommandKind::Ttl
    } else if lowered == "flushall"@ {
        CommandKind::Flushall
    } else if lowered == "command"@ {
        CommandKind::Command
    } else if lowered == "client"@ {
        CommandKind::Client
    } else {
        CommandKind::Unknown
    }
}

/// The name under which a kind of command appears in messages.
pub open spec fn kind_name(kind: CommandKind) -> Seq<char> {
    match kind {
        CommandKind::Get => "get"@,
        CommandKind::SetKey => "set"@,
        CommandKind::Del => "del"@,
        CommandKind::Expire => "expire"@,
        CommandKind::Exists => "exists"@,
        CommandKind::Keys => "keys"@,
        CommandKind::Incr => "incr"@,
        CommandKind::Decr => "decr"@,
        CommandKind::Quit => "quit"@,
        CommandKind::Ping => "ping"@,
        CommandKind::Echo => "echo"@,
        CommandKind::Ttl => "ttl"@,
        CommandKind::Flushall => "flushall"@,
        CommandKind::Command => "command"@,
        CommandKind::Client => "client"@,
        CommandKind::Unknown => "unknown"@,
    }
}

/// Whether a command of this kind may change the store. `get` may: it takes
/// out an entry that has expired.
pub open spec fn kind_writes(kind: CommandKind) -> bool {
    kind is Get || kind is SetKey || kind is Del || kind is Incr || kind is Decr || kind is Flushall
}

/// Whether a command of this kind can run on the arguments that were
/// received. `None` stands for arguments that did not decode.
pub open spec fn arity_ok(kind: CommandKind, args: Option<Seq<Seq<char>>>) -> bool {
    match kind {
        CommandKind::Get
        | CommandKind::Del
        | CommandKind::Keys
        | CommandKind::Incr
        | CommandKind::Decr
        | CommandKind::Echo => args matches Some(a) && a.len() == 1,
        CommandKind::SetKey => args matches Some(a) && a.len() >= 2,
        CommandKind::Exists => args matches Some(a) && 1 <= a.len() <= i32::MAX,
        _ => true,
    }
}

pub open spec fn argument_error_text(command: Seq<char>) -> Seq<char> {
    "ERR wrong number of arguments for '"@ + command + "' command"@
}

pub open spec fn unsupported_text(command: Seq<char>) -> Seq<char> {
    "ERR '"@ + command + "' command is not supported"@
}

pub open spec fn unknown_text(name: Seq<char>, trailing: Seq<char>) -> Seq<char> {
    "ERR unknown command `"@ + name + "`, with args beginning with:"@ + trailing
}

/// The reply to a step of a counter.
pub open spec fn counter_reply(r: Result<i32, CounterError>) -> ReplyText {
    match r {
        Ok(n) => ReplyText::Integer(n),
        Err(_) => ReplyText::Error("ERR value is not an integer or out of range"@),
    }
}

/// The store after a command.
pub open spec fn store_after(
    store: Store,
    kind: CommandKind,
    args: Option<Seq<Seq<char>>>,
    now: u128,
) -> Store {
    if !arity_ok(kind, args) {
        store
    } else {
        match kind {
            CommandKind::Get => store_purge(store, args->0[0], now),
            CommandKind::SetKey => store_set(store, args->0[0], args->0[1], None, now),
            CommandKind::Del => store.remove(args->0[0]),
            CommandKind::Incr => counter_store(store, args->0[0], now, 1),
            CommandKind::Decr => counter_store(store, args->0[0], now, -1),
            CommandKind::Flushall => Store::empty(),
            _ => store,
        }
    }
}

/// `reply` is a right answer to the command. For all kinds but `keys` there
/// is one right answer; for `keys` the order of the list is left open.
pub open spec fn answers(
    store: Store,
    kind: CommandKind,
    name: Seq<char>,
    args: Option<Seq<Seq<char>>>,
    trailing: Seq<char>,
    now: u128,
    reply: ReplyText,
) -> bool {
    if !arity_ok(kind, args) {
        reply == ReplyText::Error(argument_error_text(kind_name(kind)))
    } else {
        match kind {
            CommandKind::Get => reply == ReplyText::Bulk(store_get(store, args->0[0], now)),
            CommandKind::SetKey
            | CommandKind::Del
            | CommandKind::Quit
            | CommandKind::Flushall
            | CommandKind::Command
            | CommandKind::Client => reply == ReplyText::Status("OK"@),
            CommandKind::Exists => reply matches ReplyText::Integer(count) && count
                == live_count(store, args->0, now),
            CommandKind::Keys => reply matches ReplyText::Array(listed) && lists_keys(
                listed,
                store,
                args->0[0],
                now,
            ),
            CommandKind::Incr => reply == counter_reply(
                counter_result(store, args->0[0], now, 1),
            ),
            CommandKind::Decr => reply == counter_reply(
                counter_result(store, args->0[0], now, -1),
            ),
            CommandKind::Ping => reply == if args is Some && args->0.len() > 0 {
                ReplyText::Bulk(Some(args->0[0]))
            } else {
                ReplyText::Status("PONG"@)
            },
            CommandKind::Echo => reply == ReplyText::Bulk(Some(args->0[0])),
            CommandKind::Expire | CommandKind::Ttl => reply == ReplyText::Error(
                unsupported_text(kind_name(kind)),
            ),
            CommandKind::Unknown => reply == ReplyText::Error(unknown_text(name, trailing)),
        }
    }
}

/// The reply to `keys` is the list that the store gives: the same store gives
/// the same list.
pub open spec fn keys_listed(
    db: DB,
    kind: CommandKind,
    args: Option<Seq<Seq<char>>>,
    now: u128,
    reply: ReplyText,
) -> bool {
    kind is Keys && arity_ok(kind, args) ==> reply == ReplyText::Array(
        db.listing(args->0[0], now),
    )
}

/// The views of the arguments, if there are any.
pub open spec fn opt_texts(args: Option<Vec<String>>) -> Option<Seq<Seq<char>>> {
    match args {
        Some(a) => Some(texts(a@)),
        None => None,
    }
}

/// One request, taken apart.
#[derive(Debug)]
pub struct Request {
    /// The name of the command, as it was received.
    pub name: String,
    pub kind: CommandKind,
    /// The arguments, or `None` if the bytes after the name are not a run of
    /// whole frames.
    pub args: Option<Vec<String>>,
    /// For a command of unknown kind, the bytes after its name as text; empty
    /// for all others.
    pub trailing: String,
}

/// What the dispatcher answers with.
#[derive(Debug)]
pub struct Outcome {
    pub reply: Reply,
    /// Whether the connection is to be closed once the reply is sent.
    pub close: bool,
}

/// The parts of a request, as mathematical values.
pub struct Parts {
    pub name: Seq<char>,
    pub args: Option<Seq<Seq<char>>>,
    /// The bytes after the frame of the name.
    pub rest: Seq<u8>,
}

/// The parts of a request: a header frame, whose count is read and not used,
/// the frame of the name, and the arguments in what follows.
pub open spec fn request_parts(request: Seq<u8>) -> Result<Parts, DecodeError> {
    match length_field(request) {
        Err(e) => Err(e),
        Ok((_, length_till)) => {
            if length_till > request.len() {
                Err(DecodeError::Incomplete)
            } else {
                match bulk_frame(request.subrange(length_till as int, request.len() as int)) {
                    Err(e) => Err(e),
                    Ok((name, command_till)) => Ok(
                        Parts {
                            name,
                            args: arguments_from(request, length_till + command_till),
                            rest: if length_till + command_till <= request.len() {
                                request.subrange(
                                    length_till + command_till,
                                    request.len() as int,
                                )
                            } else {
                                Seq::empty()
                            },
                        },
                    ),
                }
            }
        },
    }
}

/// The text that a request of this kind carries along for its reply.
pub open spec fn trailing_text(kind: CommandKind, rest: Seq<u8>) -> Seq<char> {
    if kind is Unknown {
        lossy_text(rest)
    } else {
        Seq::empty()
    }
}

/// The kind of the command with this name, the name being in lower case.
pub fn classify(lowered: &str) -> (kind: CommandKind)
    ensures
        kind == kind_of(lowered@),
{
    if same_text(lowered, "get") {
        CommandKind::Get
    } else if same_text(lowered, "set") {
        CommandKind::SetKey
    } else if same_text(lowered, "del") {
        CommandKind::Del
    } else if same_text(lowered, "expire") {
        CommandKind::Expire
    } else if same_text(lowered, "exists") {
        CommandKind::Exists
    } else if same_text(lowered, "keys") {
        CommandKind::Keys
    } else if same_text(lowered, "incr") {
        CommandKind::Incr
    } else if same_text(lowered, "decr") {
        CommandKind::Decr
    } else if same_text(lowered, "quit") {
        CommandKind::Quit
    } else if same_text(lowered, "ping") {
        CommandKind::Ping
    } else if same_text(lowered, "echo") {
        CommandKind::Echo
    } else if same_text(lowered, "ttl") {
        CommandKind::Ttl
    } else if same_text(lowered, "flushall") {
        CommandKind::Flushall
    } else if same_text(lowered, "command") {
        CommandKind::Command
    } else if same_text(lowered, "client") {
        CommandKind::Client
    } else {
        CommandKind::Unknown
    }
}

/// The name under which a kind of command appears in messages.
pub fn name_of(kind: CommandKind) -> (name: &'static str)
    ensures
        name@ == kind_name(kind),
{
    match kind {
        CommandKind::Get => "get",
        CommandKind::SetKey => "set",
        CommandKind::Del => "del",
        CommandKind::Expire => "expire",
        CommandKind::Exists => "exists",
        CommandKind::Keys => "keys",
        CommandKind::Incr => "incr",
        CommandKind::Decr => "decr",
        CommandKind::Quit => "quit",
        CommandKind::Ping => "ping",
        CommandKind::Echo => "echo",
        CommandKind::Ttl => "ttl",
        CommandKind::Flushall => "flushall",
        CommandKind::Command => "command",
        CommandKind::Client => "client",
        CommandKind::Unknown => "unknown",
    }
}

/// Whether a command of this kind may change the store.
pub fn writes(kind: CommandKind) -> (r: bool)
    ensures
        r == kind_writes(kind),
{
    match kind {
        CommandKind::Get
        | CommandKind::SetKey
        | CommandKind::Del
        | CommandKind::Incr
        | CommandKind::Decr
        | CommandKind::Flushall => true,
        _ => false,
    }
}

/// The reply to a command that came with the wrong number of arguments.
pub fn argument_error(command: &str) -> (reply: Reply)
    ensures
        reply@ == ReplyText::Error(argument_error_text(command@)),
{
    let mut message = String::from_str("ERR wrong number of arguments for '");
    message.append(command);
    message.append("' command");
    Reply::Error(message)
}

fn unsupported(command: &str) -> (reply: Reply)
    ensures
        reply@ == ReplyText::Error(unsupported_text(command@)),
{
    let mut message = String::from_str("ERR '");
    message.append(command);
    message.append("' command is not supported");
    Reply::Error(message)
}

fn unknown_command(name: &str, trailing: &str) -> (reply: Reply)
    ensures
        reply@ == ReplyText::Error(unknown_text(name@, trailing@)),
{
    let mut message = String::from_str("ERR unknown command `");
    message.append(name);
    message.append("`, with args beginning with:");
    message.append(trailing);
    Reply::Error(message)
}

fn ok() -> (reply: Reply)
    ensures
        reply@ == ReplyText::Status("OK"@),
{
    Reply::Status(String::from_str("OK"))
}

fn counter_answer(r: Result<i32, CounterError>) -> (reply: Reply)
    ensures
        reply@ == counter_reply(r),
{
    match r {
        Ok(n) => Reply::Integer(n),
        Err(_) => Reply::Error(String::from_str("ERR value is not an integer or out of range")),
    }
}

/// The reply to a request whose header or name does not decode.
pub fn protocol_error() -> (out: Outcome)
    ensures
        out.reply@ == ReplyText::Error("ERR protocol error"@),
        !out.close,
{
    Outcome { reply: Reply::Error(String::from_str("ERR protocol error")), close: false }
}

fn arity_fits(kind: CommandKind, args: &Option<Vec<String>>) -> (r: bool)
    ensures
        r == arity_ok(kind, opt_texts(*args)),
{
    match kind {
        CommandKind::Get
        | CommandKind::Del
        | CommandKind::Keys
        | CommandKind::Incr
        | CommandKind::Decr
        | CommandKind::Echo => match args {
            Some(a) => a.len() == 1,
            None => false,
        },
        CommandKind::SetKey => match args {
            Some(a) => a.len() >= 2,
            None => false,
        },
        CommandKind::Exists => match args {
            Some(a) => 1 <= a.len() && a.len() <= 0x7fff_ffff,
            None => false,
        },
        _ => true,
    }
}

/// Takes a request apart: the name of the command, its kind, its arguments.
/// For a command of unknown kind the bytes after the name are kept as text:
/// the text that they encode, where they are UTF-8.
pub fn parse_request(request: &[u8]) -> (r: Result<Request, DecodeError>)
    ensures
        match r {
            Ok(req) => request_parts(request@) matches Ok(parts) && req.name@ == parts.name
                && opt_texts(req.args) == parts.args && req.kind == kind_of(
                lowercase_text(parts.name),
            ) && req.trailing@ == trailing_text(req.kind, parts.rest) && (req.kind is Unknown
                && valid_utf8(parts.rest) ==> req.trailing@ == decode_utf8(parts.rest)),
            Err(e) => request_parts(request@) == Err::<Parts, DecodeError>(e),
        },
{
    let n: usize = request.len();
    let (_count, length_till) = match read_length(request) {
        Ok(p) => p,
        Err(e) => { return Err(e); },
    };
    if length_till > n {
        return Err(DecodeError::Incomplete);
    }
    let (name, command_till) = match read_simple_string(slice_subrange(request, length_till, n)) {
        Ok(p) => p,
        Err(e) => { return Err(e); },
    };
    let lowered = lowercase(name.as_str());
    let kind = classify(lowered.as_str());
    let args = parse_arguments(request, length_till, command_till, n);
    assert(request@.subrange(0, n as int) =~= request@);
    let trailing = match kind {
        CommandKind::Unknown => {
            let from: usize = if command_till <= n - length_till {
                length_till + command_till
            } else {
                n
            };
            assert(request@.subrange(n as int, n as int) =~= Seq::<u8>::empty());
            text_of_lossy(slice_subrange(request, from, n))
        },
        _ => String::new(),
    };
    Ok(Request { name, kind, args, trailing })
}

/// Runs a command that does not change the store.
pub fn answer_reading_at(db: &DB, req: Request, now: u128) -> (out: Outcome)
    requires
        !kind_writes(req.kind),
    ensures
        answers(db@, req.kind, req.name@, opt_texts(req.args), req.trailing@, now, out.reply@),
        keys_listed(*db, req.kind, opt_texts(req.args), now, out.reply@),
        out.close == (req.kind is Quit),
{
    let kind = req.kind;
    if !arity_fits(kind, &req.args) {
        return Outcome { reply: argument_error(name_of(kind)), close: false };
    }
    let close: bool = match kind {
        CommandKind::Quit => true,
        _ => false,
    };
    let reply = match kind {
        CommandKind::Unknown => unknown_command(req.name.as_str(), req.trailing.as_str()),
        CommandKind::Expire | CommandKind::Ttl => unsupported(name_of(kind)),
        CommandKind::Quit | CommandKind::Command | CommandKind::Client => ok(),
        _ => {
            let args: Vec<String> = match req.args {
                Some(a) => a,
                None => Vec::new(),
            };
            let bare: bool = args.len() == 0;
            let cmd = Commands::new(req.name, args);
            match kind {
                CommandKind::Exists => Reply::Integer(cmd.handle_exists_command(db, now)),
                CommandKind::Keys => Reply::Array(cmd.handle_keys_command(db, now)),
                CommandKind::Echo => Reply::Bulk(Some(cmd.handle_ping_command())),
                _ => {
                    if bare {
                        Reply::Status(cmd.handle_ping_command())
                    } else {
                        Reply::Bulk(Some(cmd.handle_ping_command()))
                    }
                },
            }
        },
    };
    Outcome { reply, close }
}

/// Runs a command at the instant `now`.
pub fn answer_at(db: &mut DB, req: Request, now: u128) -> (out: Outcome)
    ensures
        answers(
            old(db)@,
            req.kind,
            req.name@,
            opt_texts(req.args),
            req.trailing@,
            now,
            out.reply@,
        ),
        keys_listed(*old(db), req.kind, opt_texts(req.args), now, out.reply@),
        out.close == (req.kind is Quit),
        final(db)@ == store_after(old(db)@, req.kind, opt_texts(req.args), now),
{
    let kind = req.kind;
    if !writes(kind) {
        return answer_reading_at(db, req, now);
    }
    if !arity_fits(kind, &req.args) {
        return Outcome { reply: argument_error(name_of(kind)), close: false };
    }
    let args: Vec<String> = match req.args {
        Some(a) => a,
        None => Vec::new(),
    };
    let cmd = Commands::new(req.name, args);
    let reply = match kind {
        CommandKind::Get => Reply::Bulk(cmd.handle_get_command(db, now)),
        CommandKind::SetKey => {
            cmd.handle_set_command(db, now);
            ok()
        },
        CommandKind::Del => {
            cmd.handle_del_command(db);
            ok()
        },
        CommandKind::Incr => counter_answer(cmd.handle_incr_command(db, now)),
        CommandKind::Decr => counter_answer(cmd.handle_decr_command(db, now)),
        _ => {
            cmd.handle_flushall_command(db);
            ok()
        },
    };
    Outcome { reply, close: false }
}

/// Answers one request at the instant `now`. The reply to a command of
/// unknown kind quotes the bytes after its name as the text that they encode,
/// where they are UTF-8.
pub fn respond_at(db: &mut DB, request: &[u8], now: u128) -> (out: Outcome)
    ensures
        match request_parts(request@) {
            Err(_) => out.reply@ == ReplyText::Error("ERR protocol error"@) && !out.close
                && final(db)@ == old(db)@,
            Ok(parts) => {
                let kind = kind_of(lowercase_text(parts.name));
                &&& answers(
                    old(db)@,
                    kind,
                    parts.name,
                    parts.args,
                    trailing_text(kind, parts.rest),
                    now,
                    out.reply@,
                )
                &&& kind is Unknown && valid_utf8(parts.rest) ==> out.reply@
                    == ReplyText::Error(unknown_text(parts.name, decode_utf8(parts.rest)))
                &&& keys_listed(*old(db), kind, parts.args, now, out.reply@)
                &&& out.close == (kind is Quit)
                &&& final(db)@ == store_after(old(db)@, kind, parts.args, now)
            },
        },
{
    match parse_request(request) {
        Ok(req) => answer_at(db, req, now),
        Err(_) => protocol_error(),
    }
}

proof fn lemma_fits_line_concat(a: Seq<char>, b: Seq<char>)
    requires
        fits_line(a),
        fits_line(b),
    ensures
        fits_line(a + b),
{
    assert forall|i: int| 0 <= i < (a + b).len() implies (a + b)[i] != '\r' by {
        if i < a.len() {
            assert((a + b)[i] == a[i]);
        } else {
            assert((a + b)[i] == b[i - a.len()]);
        }
    }
}

proof fn lemma_kind_name_fits_line(kind: CommandKind)
    ensures
        fits_line(kind_name(kind)),
{
    reveal_strlit("get");
    reveal_strlit("set");
    reveal_strlit("del");
    reveal_strlit("expire");
    reveal_strlit("exists");
    reveal_strlit("keys");
    reveal_strlit("incr");
    reveal_strlit("decr");
    reveal_strlit("quit");
    reveal_strlit("ping");
    reveal_strlit("echo");
    reveal_strlit("ttl");
    reveal_strlit("flushall");
    reveal_strlit("command");
    reveal_strlit("client");
    reveal_strlit("unknown");
}

proof fn lemma_messages_fit_line()
    ensures
        fits_line("OK"@),
        fits_line("PONG"@),
        fits_line("ERR wrong number of arguments for '"@),
        fits_line("' command"@),
        fits_line("ERR '"@),
        fits_line("' command is not supported"@),
        fits_line("ERR value is not an integer or out of range"@),
        fits_line("ERR unknown command `"@),
        fits_line("`, with args beginning with:"@),
        fits_line("ERR protocol error"@),
{
    reveal_strlit("OK");
    reveal_strlit("PONG");
    reveal_strlit("ERR wrong number of arguments for '");
    reveal_strlit("' command");
    reveal_strlit("ERR '");
    reveal_strlit("' command is not supported");
    reveal_strlit("ERR value is not an integer or out of range");
    reveal_strlit("ERR unknown command `");
    reveal_strlit("`, with args beginning with:");
    reveal_strlit("ERR protocol error");
}

/// A status or an error that answers a command fits on one line, so that the
/// decoder reads it back whole. For a command of unknown kind this asks that
/// its name and what follows it hold no carriage return.
pub proof fn lemma_answers_fit_line(
    store: Store,
    kind: CommandKind,
    name: Seq<char>,
    args: Option<Seq<Seq<char>>>,
    trailing: Seq<char>,
    now: u128,
    reply: ReplyText,
)
    requires
        answers(store, kind, name, args, trailing, now, reply),
        kind is Unknown ==> fits_line(name) && fits_line(trailing),
    ensures
        reply matches ReplyText::Status(t) ==> fits_line(t),
        reply matches ReplyText::Error(t) ==> fits_line(t),
{
    lemma_messages_fit_line();
    lemma_kind_name_fits_line(kind);
    lemma_fits_line_concat("ERR wrong number of arguments for '"@, kind_name(kind));
    lemma_fits_line_concat(
        "ERR wrong number of arguments for '"@ + kind_name(kind),
        "' command"@,
    );
    lemma_fits_line_concat("ERR '"@, kind_name(kind));
    lemma_fits_line_concat("ERR '"@ + kind_name(kind), "' command is not supported"@);
    if kind is Unknown {
        lemma_fits_line_concat("ERR unknown command `"@, name);
        lemma_fits_line_concat(
            "ERR unknown command `"@ + name,
            "`, with args beginning with:"@,
        );
        lemma_fits_line_concat(
            "ERR unknown command `"@ + name + "`, with args beginning with:"@,
            trailing,
        );
    }
}

/// What the dispatcher answers, the decoder reads back: the bytes of the
/// reply decode to the reply. This holds where no value is longer than 32 bits
/// can say and, for a command of unknown kind, where its name and what
/// follows it hold no carriage return.
pub proof fn lemma_answer_decodes(
    store: Store,
    kind: CommandKind,
    name: Seq<char>,
    args: Option<Seq<Seq<char>>>,
    trailing: Seq<char>,
    now: u128,
    reply: ReplyText,
    rest: Seq<u8>,
)
    requires
        answers(store, kind, name, args, trailing, now, reply),
        kind is Unknown ==> fits_line(name) && fits_line(trailing),
        lengths_fit(reply),
        reply_bytes(reply).len() + rest.len() <= usize::MAX,
    ensures
        reply_frame(reply_bytes(reply) + rest) == Ok::<(ReplyText, usize), DecodeError>(
            (reply, reply_bytes(reply).len() as usize),
        ),
{
    lemma_answers_fit_line(store, kind, name, args, trailing, now, reply);
    lemma_decode_encode(reply, rest);
}

} // verus!
