//! What clients and the daemon say to each other, one line of JSON each.

use crate::single::Single;
use crate::text;
use vstd::prelude::*;

pub mod client;

verus! {

/// What a client asks for.
#[derive(Clone, Copy, Debug)]
pub enum Request {
    /// Tell what the daemon sees and does.
    Status,
    /// Leave both channels alone for some seconds; zero is until a resume.
    Pause { seconds: u64 },
    /// End a pause and all manual overrides.
    Resume,
    /// Shift the display's target by some percent, until the light changes.
    Nudge { delta: i32 },
}

/// What the daemon sees and does.
#[derive(Clone, Copy, Debug)]
pub struct StatusReply {
    pub lux_raw: Single,
    pub lux_smoothed: Single,
    pub display_pct: Option<Single>,
    pub keyboard_pct: Option<Single>,
    pub paused_until_unix: Option<u64>,
    pub display_override_active: bool,
    pub keyboard_override_active: bool,
    pub idle: bool,
    pub nudge_pct: i32,
}

/// What the daemon answers.
#[derive(Debug)]
pub enum Reply {
    /// The request was carried out.
    Done,
    Status(StatusReply),
    Error(String),
}

/// The path of the daemon's socket: in the user's runtime directory, or else
/// in the directory for temporary files.
pub fn socket_path(runtime_dir: Option<&str>, temp_dir: &str) -> (path: String)
    ensures
        path@ == text::joined(
            match runtime_dir {
                Some(dir) => dir@,
                None => temp_dir@,
            },
            "asahi-brightness.sock"@,
        ),
{
    match runtime_dir {
        Some(dir) => text::join(dir, "asahi-brightness.sock"),
        None => text::join(temp_dir, "asahi-brightness.sock"),
    }
}

/// A message as it is sent: a line.
pub fn frame(body: &str) -> (line: String)
    ensures
        line@ == body@.push('\n'),
{
    proof {
        reveal_strlit("\n");
        assert("\n"@ =~= seq!['\n']);
        assert(body@ + "\n"@ =~= body@.push('\n'));
    }
    body.to_owned().concat("\n")
}

/// The message that a line holds.
pub fn unframe(line: &str) -> (body: &str)
    ensures
        body@ == text::trimmed(line@),
{
    text::trim(line)
}

/// What is answered to a line that is no request.
pub fn bad_request(cause: &str) -> (reply: Reply)
    ensures
        reply matches Reply::Error(message) && message@ == "bad request: "@ + cause@,
{
    Reply::Error("bad request: ".to_owned().concat(cause))
}

/// A message without white space around it arrives as it was sent.
pub proof fn law_message_survives_framing(body: Seq<char>)
    requires
        body.len() > 0,
        !text::is_white_space(body.first()),
        !text::is_white_space(body.last()),
    ensures
        text::trimmed(body.push('\n')) == body,
{
    let line = body.push('\n');
    assert(line[0] == body.first());
    assert(text::without_leading(line) == line);
    assert(line.drop_last() == body);
    assert(text::without_trailing(line) == text::without_trailing(body));
}

}
