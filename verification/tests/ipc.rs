use asahi_brightness::ipc::client::{
    expect_ok, expect_status, nudge, pause, response, resume, status, ClientError,
};
use asahi_brightness::ipc::{bad_request, frame, socket_path, unframe, Reply, Request, StatusReply};
use asahi_brightness::single::Single;

fn some_status() -> StatusReply {
    StatusReply {
        lux_raw: Single::from_u32(12),
        lux_smoothed: Single::from_u32(11),
        display_pct: Some(Single::from_u32(30)),
        keyboard_pct: None,
        paused_until_unix: None,
        display_override_active: true,
        keyboard_override_active: false,
        idle: false,
        nudge_pct: -10,
    }
}

#[test]
fn socket_is_in_the_runtime_directory() {
    assert_eq!(socket_path(Some("/run/user/1000"), "/tmp"), "/run/user/1000/asahi-brightness.sock");
    assert_eq!(socket_path(None, "/tmp"), "/tmp/asahi-brightness.sock");
}

#[test]
fn commands_send_their_requests() {
    assert!(matches!(status(), Request::Status));
    assert!(matches!(pause(90), Request::Pause { seconds: 90 }));
    assert!(matches!(resume(), Request::Resume));
    assert!(matches!(nudge(-10), Request::Nudge { delta: -10 }));
}

#[test]
fn messages_survive_framing() {
    let body = "{\"Pause\":{\"seconds\":5}}";
    assert_eq!(frame(body), "{\"Pause\":{\"seconds\":5}}\n");
    assert_eq!(unframe(frame(body).as_str()), body);
    assert_eq!(unframe("  \"Status\" \r\n"), "\"Status\"");
}

#[test]
fn missing_reply_is_an_error() {
    assert!(matches!(response("\"Ok\"\n"), Ok("\"Ok\"")));
    let error = response(" \n").unwrap_err();
    assert!(matches!(error, ClientError::NoReply));
    assert_eq!(error.message(), "daemon closed connection without reply");
}

#[test]
fn line_that_is_no_request_is_refused() {
    match bad_request("expected value at line 1 column 1") {
        Reply::Error(message) => {
            assert_eq!(message, "bad request: expected value at line 1 column 1")
        }
        other => panic!("{other:?}"),
    }
}

#[test]
fn commands_expect_to_be_carried_out() {
    assert!(expect_ok(Reply::Done).is_ok());
    let refused = expect_ok(Reply::Error("no".into())).unwrap_err();
    assert!(matches!(refused, ClientError::Refused { .. }));
    assert_eq!(refused.message(), "no");
    let confused = expect_ok(Reply::Status(some_status())).unwrap_err();
    assert!(matches!(confused, ClientError::UnexpectedStatus));
    assert_eq!(confused.message(), "unexpected Status reply");
}

#[test]
fn status_is_expected() {
    let told = expect_status(Reply::Status(some_status())).unwrap();
    assert_eq!(told.nudge_pct, -10);
    assert!(told.display_override_active && !told.keyboard_override_active);
    assert_eq!(expect_status(Reply::Error("no".into())).unwrap_err().message(), "no");
    let confused = expect_status(Reply::Done).unwrap_err();
    assert!(matches!(confused, ClientError::UnexpectedOk));
    assert_eq!(confused.message(), "unexpected Ok reply to Status");
}
