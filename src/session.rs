//! The decisions of one client connection, as a state machine: the caller
//! reports what happened (a frame read, a message from the hub, a failure)
//! and performs the action the session hands back.
use vstd::prelude::*;
use crate::event::{normalize, normalized, Event, EventModel, Stream};

verus! {

/// Where a connection is in its life.
#[derive(Clone, Copy, PartialEq, Eq, Structural)]
pub enum Phase {
    /// Waiting for the connection and the hub subscription.
    Connecting,
    /// Reading frames from the client and forwarding hub messages to it.
    Active,
    /// One duty has ended; the other is being stopped.
    Closing,
    /// Both duties are over and the subscription is released.
    Closed,
}

/// A frame read from the client. `decoded` is what the wire decoder made of
/// a text frame's `raw` text, `None` where it could not decode it.
pub enum Frame {
    Text { raw: String, decoded: Option<Event> },
    Binary,
    Ping,
    Pong,
    Close,
}

/// What happened on the connection or on the hub.
pub enum Input {
    /// The connection is up and the hub subscription is held.
    Subscribed,
    Inbound(Frame),
    /// Reading from the client failed or the client's stream ended.
    ReadFailed,
    /// The hub delivered a message to this session.
    Delivered(String),
    /// The hub dropped messages this session had not taken yet.
    Lagged,
    /// The hub has no more messages to give.
    HubClosed,
    /// Sending to the client failed.
    SendFailed,
    /// Both duties have ended.
    DutiesStopped,
}

/// What the caller is to do next.
pub enum Action {
    Nothing,
    /// Apply the event's step to the canvas, then publish the event.
    RecordAndPublish(Event),
    /// Publish the event to the hub.
    Publish(Event),
    /// Send this hub message to the client.
    Forward(String),
    /// Stop both duties of this session.
    StopDuties,
    /// Release the hub subscription.
    Release,
}

pub ghost enum FrameModel {
    Text { raw: Seq<char>, decoded: Option<EventModel> },
    Binary,
    Ping,
    Pong,
    Close,
}

pub ghost enum InputModel {
    Subscribed,
    Inbound(FrameModel),
    ReadFailed,
    Delivered(Seq<char>),
    Lagged,
    HubClosed,
    SendFailed,
    DutiesStopped,
}

pub ghost enum ActionModel {
    Nothing,
    RecordAndPublish(EventModel),
    Publish(EventModel),
    Forward(Seq<char>),
    StopDuties,
    Release,
}

pub open spec fn option_view(e: Option<Event>) -> Option<EventModel> {
    match e {
        Some(x) => Some(x@),
        None => None,
    }
}

impl View for Frame {
    type V = FrameModel;

    open spec fn view(&self) -> FrameModel {
        match self {
            Frame::Text { raw, decoded } => FrameModel::Text { raw: raw@, decoded: option_view(*decoded) },
            Frame::Binary => FrameModel::Binary,
            Frame::Ping => FrameModel::Ping,
            Frame::Pong => FrameModel::Pong,
            Frame::Close => FrameModel::Close,
        }
    }
}

impl View for Input {
    type V = InputModel;

    open spec fn view(&self) -> InputModel {
        match self {
            Input::Subscribed => InputModel::Subscribed,
            Input::Inbound(f) => InputModel::Inbound(f@),
            Input::ReadFailed => InputModel::ReadFailed,
            Input::Delivered(m) => InputModel::Delivered(m@),
            Input::Lagged => InputModel::Lagged,
            Input::HubClosed => InputModel::HubClosed,
            Input::SendFailed => InputModel::SendFailed,
            Input::DutiesStopped => InputModel::DutiesStopped,
        }
    }
}

impl View for Action {
    type V = ActionModel;

    open spec fn view(&self) -> ActionModel {
        match self {
            Action::Nothing => ActionModel::Nothing,
            Action::RecordAndPublish(e) => ActionModel::RecordAndPublish(e@),
            Action::Publish(e) => ActionModel::Publish(e@),
            Action::Forward(m) => ActionModel::Forward(m@),
            Action::StopDuties => ActionModel::StopDuties,
            Action::Release => ActionModel::Release,
        }
    }
}

/// Inputs after which a session cannot go on: the client closed or left, or
/// the hub or the client can no longer be reached.
pub open spec fn ends_session(i: InputModel) -> bool {
    match i {
        InputModel::Inbound(FrameModel::Close) => true,
        InputModel::ReadFailed => true,
        InputModel::HubClosed => true,
        InputModel::SendFailed => true,
        _ => false,
    }
}

/// A decoded canvas event that carries a step: the one kind of event that
/// changes the canvas.
pub open spec fn draws(stream: Stream, decoded: Option<EventModel>) -> bool {
    match decoded {
        Some(EventModel::Canvas { step: Some(_), .. }) => stream == Stream::Canvas,
        _ => false,
    }
}

/// The action for a text frame read while active: the normalized event is
/// always published, and recorded first where it is a decoded step.
pub open spec fn on_text(stream: Stream, raw: Seq<char>, decoded: Option<EventModel>) -> ActionModel {
    if draws(stream, decoded) {
        ActionModel::RecordAndPublish(normalized(stream, raw, decoded))
    } else {
        ActionModel::Publish(normalized(stream, raw, decoded))
    }
}

/// The phase and action after input `i` arrives in phase `p` on `stream`.
pub open spec fn next(stream: Stream, p: Phase, i: InputModel) -> (Phase, ActionModel) {
    match p {
        Phase::Closed => (Phase::Closed, ActionModel::Nothing),
        Phase::Closing => match i {
            InputModel::DutiesStopped => (Phase::Closed, ActionModel::Release),
            _ => (Phase::Closing, ActionModel::Nothing),
        },
        _ => {
            if i is DutiesStopped {
                (Phase::Closed, ActionModel::Release)
            } else if ends_session(i) {
                (Phase::Closing, ActionModel::StopDuties)
            } else if p == Phase::Connecting {
                if i is Subscribed {
                    (Phase::Active, ActionModel::Nothing)
                } else {
                    (Phase::Connecting, ActionModel::Nothing)
                }
            } else {
                match i {
                    InputModel::Inbound(FrameModel::Text { raw, decoded }) => (Phase::Active, on_text(stream, raw, decoded)),
                    InputModel::Delivered(m) => (Phase::Active, ActionModel::Forward(m)),
                    _ => (Phase::Active, ActionModel::Nothing),
                }
            }
        },
    }
}

/// One client connection on one stream.
pub struct Session {
    pub stream: Stream,
    pub phase: Phase,
}

impl Session {
    /// A session that waits for its connection.
    pub fn new(stream: Stream) -> (r: Session)
        ensures
            r.stream == stream,
            r.phase == Phase::Connecting,
    {
        Session { stream, phase: Phase::Connecting }
    }

    /// Takes one input and returns what to do about it.
    pub fn handle(&mut self, input: Input) -> (r: Action)
        ensures
            final(self).stream == old(self).stream,
            (final(self).phase, r@) == next(old(self).stream, old(self).phase, input@),
    {
        let ends = match &input {
            Input::Inbound(Frame::Close) | Input::ReadFailed | Input::HubClosed | Input::SendFailed => true,
            _ => false,
        };
        match self.phase {
            Phase::Closed => Action::Nothing,
            Phase::Closing => {
                if let Input::DutiesStopped = input {
                    self.phase = Phase::Closed;
                    Action::Release
                } else {
                    Action::Nothing
                }
            },
            Phase::Connecting | Phase::Active => {
                if let Input::DutiesStopped = input {
                    self.phase = Phase::Closed;
                    Action::Release
                } else if ends {
                    self.phase = Phase::Closing;
                    Action::StopDuties
                } else if self.phase == Phase::Connecting {
                    if let Input::Subscribed = input {
                        self.phase = Phase::Active;
                    }
                    Action::Nothing
                } else {
                    match input {
                        Input::Inbound(Frame::Text { raw, decoded }) => {
                            let draws = match &decoded {
                                Some(Event::Canvas { step: Some(_), .. }) => self.stream == Stream::Canvas,
                                _ => false,
                            };
                            let e = normalize(self.stream, raw.as_str(), decoded);
                            if draws {
                                Action::RecordAndPublish(e)
                            } else {
                                Action::Publish(e)
                            }
                        },
                        Input::Delivered(m) => Action::Forward(m),
                        _ => Action::Nothing,
                    }
                }
            },
        }
    }
}

/// A frame that cannot be decoded neither closes an active session nor is
/// dropped: the session stays active and publishes the stream's fallback
/// event, whose author is the anonymous one.
pub proof fn lemma_malformed_frame_is_published(stream: Stream, raw: Seq<char>)
    ensures
        next(stream, Phase::Active, InputModel::Inbound(FrameModel::Text { raw, decoded: None })) == (
            Phase::Active,
            ActionModel::Publish(crate::event::fallback_model(stream, raw)),
        ),
        match crate::event::fallback_model(stream, raw) {
            EventModel::Chat { author, .. } => author == crate::event::anon(),
            EventModel::Canvas { author, .. } => author == crate::event::anon(),
        },
{
}

/// A session that is ending, or has ended, never touches the canvas or the
/// hub's stream of events: the input that ends it only stops its duties, and
/// after that it does nothing but release its subscription.
pub proof fn lemma_ending_session_leaves_shared_state(stream: Stream, p: Phase, i: InputModel)
    requires
        ends_session(i) || p == Phase::Closing || p == Phase::Closed,
    ensures
        next(stream, p, i).1 is Nothing || next(stream, p, i).1 is StopDuties || next(stream, p, i).1 is Release,
        p != Phase::Closed ==> (i is DutiesStopped <==> next(stream, p, i).0 == Phase::Closed),
{
}

} // verus!
