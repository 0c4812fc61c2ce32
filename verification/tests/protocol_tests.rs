use vela::errors::ErrorKind;
use vela::hypr::{
    batch_payload, cmd_toggle, dispatch_message, dispatch_ok, frame_request, socket2_path,
    socket_path, trim_spaces,
};

#[test]
fn dispatch_reply_ok_means_success() {
    assert!(dispatch_ok("ok"));
    assert!(!dispatch_ok("error"));
    assert!(!dispatch_ok(""));
    assert!(!dispatch_ok("ok\n"));
}

#[test]
fn frame_adds_json_prefix() {
    assert_eq!(frame_request("clients", true), "j/clients");
    assert_eq!(frame_request("clients", false), "clients");
}

#[test]
fn dispatch_message_is_trimmed() {
    let args = vec!["special".to_string()];
    assert_eq!(dispatch_message("togglespecialworkspace", &args), "dispatch togglespecialworkspace special");
    let none: Vec<String> = Vec::new();
    assert_eq!(dispatch_message("exit", &none), "dispatch exit");
}

#[test]
fn batch_wraps_and_joins() {
    let msgs = vec!["a b".to_string(), "c".to_string()];
    assert_eq!(batch_payload(&msgs, false), "[[BATCH]]a b;c");
    assert_eq!(batch_payload(&msgs, true), "[[BATCH]]j/a b;j/c");
    let one = vec!["only".to_string()];
    assert_eq!(batch_payload(&one, false), "[[BATCH]]only");
}

#[test]
fn socket_paths_derive_from_environment() {
    let xdg = "/run/user/1000".to_string();
    let sig = "abc123".to_string();
    let p = socket_path(Some(&xdg), Some(&sig)).unwrap();
    assert_eq!(p, "/run/user/1000/hypr/abc123/.socket.sock");
    let p2 = socket2_path(Some(&xdg), Some(&sig)).unwrap();
    assert_eq!(p2, "/run/user/1000/hypr/abc123/.socket2.sock");
}

#[test]
fn missing_environment_fails_fast() {
    let sig = "abc123".to_string();
    let err = socket_path(None, Some(&sig)).unwrap_err();
    assert_eq!(err.kind(), ErrorKind::Config);
    let xdg = "/run/user/1000".to_string();
    let err2 = socket_path(Some(&xdg), None).unwrap_err();
    assert_eq!(err2.kind(), ErrorKind::Config);
}

#[test]
fn toggle_builds_the_dispatch_arguments() {
    let v = cmd_toggle("music");
    assert_eq!(v, vec!["dispatch".to_string(), "togglespecialworkspace".to_string(), "music".to_string()]);
}

#[test]
fn trim_removes_edge_whitespace() {
    assert_eq!(trim_spaces("  a b \n"), "a b");
    assert_eq!(trim_spaces("\t\n "), "");
    assert_eq!(trim_spaces("plain"), "plain");
}
