use canvas_relay::event::{normalize, Event, Step, Stream};
use canvas_relay::session::{Action, Frame, Input, Phase, Session};

fn active(stream: Stream) -> Session {
    let mut s = Session::new(stream);
    assert!(matches!(s.handle(Input::Subscribed), Action::Nothing));
    assert!(s.phase == Phase::Active);
    s
}

fn text(raw: &str, decoded: Option<Event>) -> Input {
    Input::Inbound(Frame::Text { raw: raw.to_string(), decoded })
}

#[test]
fn malformed_canvas_frame_publishes_anonymous_marker() {
    let mut s = active(Stream::Canvas);
    match s.handle(text("not json", None)) {
        Action::Publish(Event::Canvas { author, step: Some(step) }) => {
            assert_eq!(author, "anon");
            assert_eq!(step.id, -1);
            assert!(step.coords.is_empty());
            assert_eq!(step.color, "red");
        }
        _ => panic!("expected the fallback event"),
    }
    assert!(s.phase == Phase::Active);
}

#[test]
fn malformed_chat_frame_publishes_raw_text_as_anon() {
    let mut s = active(Stream::Chat);
    match s.handle(text("hello?", None)) {
        Action::Publish(Event::Chat { author, text }) => {
            assert_eq!(author, "anon");
            assert_eq!(text, "hello?");
        }
        _ => panic!("expected the fallback event"),
    }
    assert!(s.phase == Phase::Active);
}

#[test]
fn decoded_step_is_recorded_then_published() {
    let mut s = active(Stream::Canvas);
    let ev = Event::Canvas {
        author: "alice".to_string(),
        step: Some(Step { id: 1, coords: vec![0, 0], color: "red".to_string() }),
    };
    match s.handle(text("{..}", Some(ev))) {
        Action::RecordAndPublish(Event::Canvas { author, step: Some(step) }) => {
            assert_eq!(author, "alice");
            assert_eq!(step.id, 1);
            assert_eq!(step.coords, vec![0, 0]);
        }
        _ => panic!("expected the step to be recorded"),
    }
}

#[test]
fn canvas_event_without_step_is_only_published() {
    let mut s = active(Stream::Canvas);
    let ev = Event::Canvas { author: "zed".to_string(), step: None };
    assert!(matches!(
        s.handle(text("{}", Some(ev))),
        Action::Publish(Event::Canvas { step: None, .. })
    ));
}

#[test]
fn event_of_the_other_stream_falls_back() {
    let mut s = active(Stream::Canvas);
    let ev = Event::Chat { author: "bob".to_string(), text: "hi".to_string() };
    match s.handle(text("raw", Some(ev))) {
        Action::Publish(Event::Canvas { author, step: Some(step) }) => {
            assert_eq!(author, "anon");
            assert_eq!(step.id, -1);
        }
        _ => panic!("expected the fallback event"),
    }
}

#[test]
fn hub_messages_are_forwarded_and_lag_is_tolerated() {
    let mut s = active(Stream::Chat);
    match s.handle(Input::Delivered("m1".to_string())) {
        Action::Forward(m) => assert_eq!(m, "m1"),
        _ => panic!("expected a forward"),
    }
    assert!(matches!(s.handle(Input::Lagged), Action::Nothing));
    assert!(matches!(s.handle(Input::Inbound(Frame::Ping)), Action::Nothing));
    assert!(matches!(s.handle(Input::Inbound(Frame::Binary)), Action::Nothing));
    assert!(s.phase == Phase::Active);
}

#[test]
fn close_frame_stops_duties_then_releases() {
    let mut s = active(Stream::Canvas);
    assert!(matches!(s.handle(Input::Inbound(Frame::Close)), Action::StopDuties));
    assert!(s.phase == Phase::Closing);
    assert!(matches!(s.handle(text("late", None)), Action::Nothing));
    assert!(matches!(s.handle(Input::Delivered("late".to_string())), Action::Nothing));
    assert!(matches!(s.handle(Input::DutiesStopped), Action::Release));
    assert!(s.phase == Phase::Closed);
    assert!(matches!(s.handle(Input::Subscribed), Action::Nothing));
    assert!(s.phase == Phase::Closed);
}

#[test]
fn failures_end_the_session() {
    for input in [Input::ReadFailed, Input::SendFailed, Input::HubClosed] {
        let mut s = active(Stream::Chat);
        assert!(matches!(s.handle(input), Action::StopDuties));
        assert!(s.phase == Phase::Closing);
    }
}

#[test]
fn nothing_happens_before_subscription() {
    let mut s = Session::new(Stream::Chat);
    assert!(matches!(s.handle(Input::Delivered("x".to_string())), Action::Nothing));
    assert!(s.phase == Phase::Connecting);
    assert!(matches!(s.handle(Input::ReadFailed), Action::StopDuties));
    assert!(s.phase == Phase::Closing);
}

#[test]
fn normalize_keeps_a_decoded_event() {
    let ev = Event::Chat { author: "ann".to_string(), text: "yo".to_string() };
    match normalize(Stream::Chat, "raw", Some(ev)) {
        Event::Chat { author, text } => {
            assert_eq!(author, "ann");
            assert_eq!(text, "yo");
        }
        _ => panic!("expected the decoded event"),
    }
}
