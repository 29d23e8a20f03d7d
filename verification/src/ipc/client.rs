//! The client's side: which request a command sends, and what it makes of the
//! reply.

use crate::ipc::{Reply, Request, StatusReply};
use crate::text;
use vstd::prelude::*;

verus! {

/// Why a command failed.
#[derive(Debug)]
pub enum ClientError {
    /// The daemon hung up instead of answering.
    NoReply,
    /// The daemon answered with an error.
    Refused { message: String },
    /// The daemon answered something else than asked.
    UnexpectedOk,
    UnexpectedStatus,
}

/// What an error is reported as.
pub open spec fn client_message(e: ClientError) -> Seq<char> {
    match e {
        ClientError::NoReply => "daemon closed connection without reply"@,
        ClientError::Refused { message } => message@,
        ClientError::UnexpectedOk => "unexpected Ok reply to Status"@,
        ClientError::UnexpectedStatus => "unexpected Status reply"@,
    }
}

impl ClientError {
    /// The error in words.
    pub fn message(&self) -> (m: String)
        ensures
            m@ == client_message(*self),
    {
        match self {
            ClientError::NoReply => "daemon closed connection without reply".to_owned(),
            ClientError::Refused { message } => message.clone(),
            ClientError::UnexpectedOk => "unexpected Ok reply to Status".to_owned(),
            ClientError::UnexpectedStatus => "unexpected Status reply".to_owned(),
        }
    }
}

/// The request for the daemon's status.
pub fn status() -> (request: Request)
    ensures
        request == Request::Status,
{
    Request::Status
}

/// The request to pause for some seconds.
pub fn pause(seconds: u64) -> (request: Request)
    ensures
        request == (Request::Pause { seconds }),
{
    Request::Pause { seconds }
}

/// The request to resume.
pub fn resume() -> (request: Request)
    ensures
        request == Request::Resume,
{
    Request::Resume
}

/// The request to shift the display's target.
pub fn nudge(delta: i32) -> (request: Request)
    ensures
        request == (Request::Nudge { delta }),
{
    Request::Nudge { delta }
}

/// The message in the daemon's answer, if it answered at all.
pub fn response(line: &str) -> (r: Result<&str, ClientError>)
    ensures
        match r {
            Ok(body) => body@ == text::trimmed(line@) && body@.len() > 0,
            Err(e) => text::trimmed(line@).len() == 0 && e == ClientError::NoReply,
        },
{
    let body = text::trim(line);
    if body.unicode_len() == 0 {
        Err(ClientError::NoReply)
    } else {
        Ok(body)
    }
}

/// What a pause, resume or nudge makes of the reply.
pub fn expect_ok(reply: Reply) -> (r: Result<(), ClientError>)
    ensures
        match reply {
            Reply::Done => r is Ok,
            Reply::Error(message) => r == Err::<(), ClientError>(ClientError::Refused { message }),
            Reply::Status(_) => r == Err::<(), ClientError>(ClientError::UnexpectedStatus),
        },
{
    match reply {
        Reply::Done => Ok(()),
        Reply::Error(message) => Err(ClientError::Refused { message }),
        Reply::Status(_) => Err(ClientError::UnexpectedStatus),
    }
}

/// What a request for the status makes of the reply.
pub fn expect_status(reply: Reply) -> (r: Result<StatusReply, ClientError>)
    ensures
        match reply {
            Reply::Status(status) => r == Ok::<StatusReply, ClientError>(status),
            Reply::Error(message) => r == Err::<StatusReply, ClientError>(
                ClientError::Refused { message },
            ),
            Reply::Done => r == Err::<StatusReply, ClientError>(ClientError::UnexpectedOk),
        },
{
    match reply {
        Reply::Status(status) => Ok(status),
        Reply::Error(message) => Err(ClientError::Refused { message }),
        Reply::Done => Err(ClientError::UnexpectedOk),
    }
}

}
