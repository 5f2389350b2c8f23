use shell_engine::xterm::{
    handle_socket, parse_number, parse_resize, spawn_failed, SocketAction, SocketEvent,
};

#[test]
fn sizes_in_messages() {
    assert_eq!(parse_resize("{\"resize\":[80,24]}"), Some((80, 24)));
    assert_eq!(parse_resize("  {\"resize\":[ 120 , 40 ]}\n"), Some((120, 40)));
    assert_eq!(parse_resize("{\"resize\":[+1,2,3]}"), Some((1, 2)));
    assert_eq!(parse_resize("{\"resize\":[80]}"), None);
    assert_eq!(parse_resize("{\"resize\":[80,]}"), None);
    assert_eq!(parse_resize("{\"resize\":[70000,24]}"), None);
    assert_eq!(parse_resize("{\"resize\":[ 80\t, 65536 ]}"), None);
    assert_eq!(parse_resize("{\"resize\":[ 80\t, 65535 ,x,]}"), Some((80, 65535)));
    assert_eq!(parse_resize("{\"resize\":[-1,24]}"), None);
    assert_eq!(parse_resize("{\"resize\":["), None);
    assert_eq!(parse_resize("{\"resize\":]}"), None);
    assert_eq!(parse_resize("ls"), None);
}

#[test]
fn numbers_parse_as_in_the_standard_library() {
    for s in ["", "+", "0", "007", "65535", "65536", "+12", "-0", "1a", "\u{661}"] {
        assert_eq!(parse_number(s), s.parse::<u16>().ok());
    }
}

#[test]
fn what_a_browser_sends() {
    let text = |s: &str| handle_socket(SocketEvent::Text(s.to_string()));
    assert!(matches!(text("{\"resize\":[90,30]}"), SocketAction::Resize(90, 30)));
    assert!(matches!(text("ls\n"), SocketAction::Send(s) if s == "ls\n"));
    assert!(matches!(handle_socket(SocketEvent::Other), SocketAction::Nothing));
    assert!(matches!(handle_socket(SocketEvent::Gone), SocketAction::Stop));
    let out = handle_socket(SocketEvent::Output(Some("hi".to_string())));
    assert!(matches!(out, SocketAction::Show(s) if s == "hi"));
    assert!(matches!(handle_socket(SocketEvent::Output(None)), SocketAction::Stop));
}

#[test]
fn failed_start_is_told_to_the_browser() {
    assert_eq!(spawn_failed("no such shell"), "spawn failed: no such shell");
}
