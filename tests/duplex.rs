use duplex_router::session::{Action, Event, Frame, Session, SessionState};

fn written(a: Action) -> Option<String> {
    match a {
        Action::Write(t) => Some(t),
        _ => None,
    }
}

#[test]
fn text_frame_is_echoed_once() {
    let mut s = Session::new();
    let a = s.on_event(Event::Received(Frame::Text("hello".to_string())));
    assert_eq!(written(a), Some("reply: hello".to_string()));
    assert_eq!(s.state, SessionState::Open);
    assert!(matches!(s.on_event(Event::Sent), Action::Read));
    assert_eq!(s.state, SessionState::Open);
}

#[test]
fn non_text_frame_gets_notice() {
    let mut s = Session::new();
    let a = s.on_event(Event::Received(Frame::NonText));
    assert_eq!(written(a), Some("Error: message is not text".to_string()));
    assert_eq!(s.state, SessionState::Open);
}

#[test]
fn peer_close_ends_session() {
    let mut s = Session::new();
    assert!(matches!(s.on_event(Event::PeerClosed), Action::Stop));
    assert_eq!(s.state, SessionState::Closed);
    assert!(matches!(s.on_event(Event::Received(Frame::Text("x".to_string()))), Action::Stop));
    assert_eq!(s.state, SessionState::Closed);
}

#[test]
fn read_fault_ends_session() {
    let mut s = Session::new();
    assert!(matches!(s.on_event(Event::ReadFailed), Action::Stop));
    assert_eq!(s.state, SessionState::Closed);
}

#[test]
fn write_failure_ends_session() {
    let mut s = Session::new();
    let _ = s.on_event(Event::Received(Frame::Text("a".to_string())));
    assert!(matches!(s.on_event(Event::SendFailed), Action::Stop));
    assert_eq!(s.state, SessionState::Closing);
    assert!(matches!(s.on_event(Event::Received(Frame::NonText)), Action::Stop));
    assert_eq!(s.state, SessionState::Closed);
}

#[test]
fn one_write_per_frame_until_close() {
    let mut s = Session::new();
    let events = vec![
        Event::Received(Frame::Text("a".to_string())),
        Event::Sent,
        Event::Received(Frame::NonText),
        Event::Sent,
        Event::Received(Frame::Text("b".to_string())),
        Event::Sent,
        Event::PeerClosed,
        Event::Received(Frame::Text("late".to_string())),
    ];
    let writes: Vec<String> = events.into_iter().filter_map(|e| written(s.on_event(e))).collect();
    assert_eq!(
        writes,
        vec!["reply: a".to_string(), "Error: message is not text".to_string(), "reply: b".to_string()]
    );
    assert_eq!(s.state, SessionState::Closed);
}
