use devin_usage::callback::{callback_reply, listen_step, reply_for, CallbackReply, ListenEvent, ListenStep};

fn accepted(r: &CallbackReply) -> Option<String> {
    match r {
        CallbackReply::Accepted(c) => Some(c.clone()),
        _ => None,
    }
}

#[test]
fn callback_with_state_and_code_is_accepted() {
    let req = b"GET /callback?code=abc&state=s1 HTTP/1.1\r\nHost: x\r\n\r\n";
    assert_eq!(accepted(&callback_reply(req, "s1")), Some("abc".to_string()));
}

#[test]
fn callback_state_mismatch_is_rejected() {
    let req = b"GET /callback?code=abc&state=s2 HTTP/1.1\r\n\r\n";
    assert!(matches!(callback_reply(req, "s1"), CallbackReply::Rejected));
}

#[test]
fn callback_without_code_is_rejected() {
    let req = b"GET /callback?state=s1 HTTP/1.1\r\n\r\n";
    assert!(matches!(callback_reply(req, "s1"), CallbackReply::Rejected));
    let req = b"GET /callback HTTP/1.1\r\n\r\n";
    assert!(matches!(callback_reply(req, "s1"), CallbackReply::Rejected));
}

#[test]
fn other_path_is_not_found() {
    let req = b"GET /favicon.ico HTTP/1.1\r\n\r\n";
    assert!(matches!(callback_reply(req, "s1"), CallbackReply::NotFound));
    assert!(matches!(callback_reply(b"", "s1"), CallbackReply::NotFound));
    assert!(matches!(callback_reply(b"GET", "s1"), CallbackReply::NotFound));
}

#[test]
fn prefix_match_is_enough() {
    let req = b"GET /callbackxyz?state=s1&code=q HTTP/1.1\r\n";
    assert_eq!(accepted(&callback_reply(req, "s1")), Some("q".to_string()));
}

#[test]
fn last_repeated_parameter_wins() {
    let req = b"GET /callback?code=a&state=s1&code=b HTTP/1.1\r\n";
    assert_eq!(accepted(&callback_reply(req, "s1")), Some("b".to_string()));
}

#[test]
fn value_keeps_later_equals_signs() {
    let req = b"GET /callback?state=s1&code=a=b HTTP/1.1\r\n";
    assert_eq!(accepted(&callback_reply(req, "s1")), Some("a=b".to_string()));
}

#[test]
fn second_question_mark_ends_query() {
    let req = b"GET /callback?state=s1&code=x?code=y HTTP/1.1\r\n";
    assert_eq!(accepted(&callback_reply(req, "s1")), Some("x".to_string()));
}

#[test]
fn request_without_line_break() {
    let req = b"GET /callback?state=s1&code=z";
    assert_eq!(accepted(&callback_reply(req, "s1")), Some("z".to_string()));
}

#[test]
fn extra_white_space_between_words() {
    let req = b"  GET \t /callback?state=s1&code=w   HTTP/1.1\n";
    assert_eq!(accepted(&callback_reply(req, "s1")), Some("w".to_string()));
}

#[test]
fn invalid_utf8_is_read_lossily() {
    let req = b"GET /callback?state=s1&code=\xff HTTP/1.1\r\n";
    assert_eq!(accepted(&callback_reply(req, "s1")), Some("\u{FFFD}".to_string()));
}

#[test]
fn reply_for_text() {
    let req: Vec<char> = "GET /callback?state=k&code=c1 HTTP/1.1".chars().collect();
    assert_eq!(accepted(&reply_for(&req, "k")), Some("c1".to_string()));
    assert!(matches!(reply_for(&req, "other"), CallbackReply::Rejected));
}

#[test]
fn listener_stops_after_deadline_or_when_not_pending() {
    assert!(matches!(listen_step(ListenEvent::Poll(0, true), "s"), ListenStep::Accept));
    assert!(matches!(listen_step(ListenEvent::Poll(300_000_000_000, true), "s"), ListenStep::Accept));
    assert!(matches!(listen_step(ListenEvent::Poll(300_000_000_001, true), "s"), ListenStep::Stop));
    assert!(matches!(listen_step(ListenEvent::Poll(5, false), "s"), ListenStep::Stop));
    assert!(matches!(listen_step(ListenEvent::NoConnection, "s"), ListenStep::Wait));
    assert!(matches!(listen_step(ListenEvent::AcceptFailed, "s"), ListenStep::Stop));
}

#[test]
fn listener_stops_once_code_accepted() {
    let req = b"GET /callback?state=s&code=c HTTP/1.1\r\n".to_vec();
    match listen_step(ListenEvent::Request(req), "s") {
        ListenStep::Answer(r, stop) => {
            assert_eq!(accepted(&r), Some("c".to_string()));
            assert!(stop);
        }
        _ => panic!("expected an answer"),
    }
    let bad = b"GET /nope HTTP/1.1\r\n".to_vec();
    assert!(matches!(listen_step(ListenEvent::Request(bad), "s"), ListenStep::Answer(CallbackReply::NotFound, false)));
    let wrong = b"GET /callback?state=x&code=c HTTP/1.1\r\n".to_vec();
    assert!(matches!(listen_step(ListenEvent::Request(wrong), "s"), ListenStep::Answer(CallbackReply::Rejected, false)));
}
