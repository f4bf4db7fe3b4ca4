//! The values that the dispatcher answers with.

use vstd::prelude::*;

use crate::text::texts;

verus! {

/// One reply to one command.
#[derive(Debug, PartialEq, Eq)]
pub enum Reply {
    /// A short acknowledgment, on one line.
    Status(String),
    /// A number.
    Integer(i32),
    /// A value of the store, or the sign that there is none.
    Bulk(Option<String>),
    /// A list of values.
    Array(Vec<String>),
    /// A failure, with its message on one line.
    Error(String),
}

/// A reply as a mathematical value.
pub enum ReplyText {
    Status(Seq<char>),
    Integer(i32),
    Bulk(Option<Seq<char>>),
    Array(Seq<Seq<char>>),
    Error(Seq<char>),
}

impl View for Reply {
    type V = ReplyText;

    open spec fn view(&self) -> ReplyText {
        match self {
            Reply::Status(t) => ReplyText::Status(t@),
            Reply::Integer(n) => ReplyText::Integer(*n),
            Reply::Bulk(Some(v)) => ReplyText::Bulk(Some(v@)),
            Reply::Bulk(None) => ReplyText::Bulk(None),
            Reply::Array(vs) => ReplyText::Array(texts(vs@)),
            Reply::Error(m) => ReplyText::Error(m@),
        }
    }
}

} // verus!
