//! The remaining host calls: spawn, debug logging, and window control.

use coppe::event::Command;
use coppe::imports::ErrorCode;
use coppe::window::{
    close, focus, move_to, reply_error, resize, set_geometry, Geometry, WindowRequest, XReplyStatus,
};

#[test]
fn spawn_splits_by_shell_rules() {
    let args = coppe::command::spawn(b"echo 'a b' c").unwrap();
    assert_eq!(args, vec!["echo".to_string(), "a b".to_string(), "c".to_string()]);
}

#[test]
fn spawn_of_empty_string_is_bad_argument() {
    let r = coppe::command::spawn(b"");
    assert_eq!(r, Err(ErrorCode::BadArgument));
    assert_eq!(ErrorCode::BadArgument.code(), -3);
}

#[test]
fn spawn_of_blank_string_is_bad_argument() {
    assert_eq!(coppe::command::spawn(b"   "), Err(ErrorCode::BadArgument));
}

#[test]
fn spawn_of_invalid_utf8_is_bad_argument() {
    assert_eq!(coppe::command::spawn(&[0xFF, 0xFE]), Err(ErrorCode::BadArgument));
}

#[test]
fn spawn_of_unclosed_quote_is_bad_argument() {
    assert_eq!(coppe::command::spawn(b"echo 'oops"), Err(ErrorCode::BadArgument));
}

#[test]
fn log_hands_back_the_message() {
    assert_eq!(coppe::debug::log(b"ready"), Ok("ready".to_string()));
}

#[test]
fn log_of_invalid_utf8_is_bad_argument() {
    assert_eq!(coppe::debug::log(&[0xC3, 0x28]), Err(ErrorCode::BadArgument));
}

#[test]
fn window_requests_carry_the_arguments() {
    assert_eq!(
        move_to(7, -10, 20),
        WindowRequest::Configure { id: 7, x: Some(-10), y: Some(20), width: None, height: None }
    );
    assert_eq!(
        resize(7, 640, 480),
        WindowRequest::Configure { id: 7, x: None, y: None, width: Some(640), height: Some(480) }
    );
    assert_eq!(
        set_geometry(7, Geometry { x: 1, y: 2, width: 3, height: 4 }),
        WindowRequest::Configure {
            id: 7,
            x: Some(1),
            y: Some(2),
            width: Some(3),
            height: Some(4)
        }
    );
    assert_eq!(focus(7), WindowRequest::RaiseAndFocus { id: 7 });
    assert_eq!(close(7), WindowRequest::Close { id: 7 });
}

#[test]
fn configure_requests_map_to_commands() {
    let req = move_to(7, 1, 2);
    assert_eq!(
        req.command(),
        Some(Command::ConfigureWindow {
            id: 7,
            x: Some(1),
            y: Some(2),
            width: None,
            height: None
        })
    );
    assert_eq!(focus(7).command(), None);
    assert_eq!(close(7).command(), None);
}

#[test]
fn unknown_window_maps_to_minus_four() {
    let status = XReplyStatus::WindowNotFound;
    assert_eq!(reply_error(&status), ErrorCode::Window);
    assert_eq!(reply_error(&status).code(), -4);
}

#[test]
fn reply_status_mapping() {
    assert_eq!(reply_error(&XReplyStatus::Success), ErrorCode::Success);
    assert_eq!(reply_error(&XReplyStatus::BadMatch), ErrorCode::BadArgument);
    assert_eq!(reply_error(&XReplyStatus::ConnectionLost), ErrorCode::Unknown);
    assert_eq!(reply_error(&XReplyStatus::OtherError), ErrorCode::Unknown);
}

#[test]
fn error_codes_take_their_wire_values() {
    assert_eq!(ErrorCode::Success.code(), 0);
    assert_eq!(ErrorCode::Unknown.code(), -1);
    assert_eq!(ErrorCode::Execution.code(), -2);
    assert_eq!(ErrorCode::BadArgument.code(), -3);
    assert_eq!(ErrorCode::Window.code(), -4);
    assert_eq!(ErrorCode::UnableToGetMemory.code(), -128);
}
