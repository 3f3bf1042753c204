//! Events exchanged between clients, and the rule that turns an inbound frame
//! into an event.
use vstd::prelude::*;

verus! {

/// One canvas drawing primitive. Steps of one author that share an `id` are
/// parts of the same stroke.
pub struct Step {
    pub id: i32,
    pub coords: Vec<i32>,
    pub color: String,
}

/// What a `Step` holds, as mathematical values.
pub ghost struct StepModel {
    pub id: i32,
    pub coords: Seq<i32>,
    pub color: Seq<char>,
}

impl View for Step {
    type V = StepModel;

    open spec fn view(&self) -> StepModel {
        StepModel { id: self.id, coords: self.coords@, color: self.color@ }
    }
}

/// A chat message or a canvas step, each with its author. A canvas event
/// without a step carries nothing to draw.
pub enum Event {
    Chat { author: String, text: String },
    Canvas { author: String, step: Option<Step> },
}

pub ghost enum EventModel {
    Chat { author: Seq<char>, text: Seq<char> },
    Canvas { author: Seq<char>, step: Option<StepModel> },
}

impl View for Event {
    type V = EventModel;

    open spec fn view(&self) -> EventModel {
        match self {
            Event::Chat { author, text } => EventModel::Chat { author: author@, text: text@ },
            Event::Canvas { author, step } => EventModel::Canvas {
                author: author@,
                step: match step {
                    Some(s) => Some(s@),
                    None => None,
                },
            },
        }
    }
}

/// The two channels a client can talk on; each has its own fallback event.
#[derive(Clone, Copy, PartialEq, Eq, Structural)]
pub enum Stream {
    Chat,
    Canvas,
}

/// The author given to an event whose frame could not be decoded.
pub open spec fn anon() -> Seq<char> {
    "anon"@
}

/// The id of the step that marks an undecodable canvas frame.
pub const INVALID_STEP_ID: i32 = -1;

/// The color of the step that marks an undecodable canvas frame.
pub open spec fn marker_color() -> Seq<char> {
    "red"@
}

/// The step that stands for an undecodable canvas frame.
pub open spec fn invalid_marker() -> StepModel {
    StepModel { id: INVALID_STEP_ID, coords: Seq::empty(), color: marker_color() }
}

/// The event broadcast in place of a frame that could not be decoded on
/// `stream`: on the chat stream the raw text under the anonymous author, on the
/// canvas stream the invalid-marker step under the anonymous author.
pub open spec fn fallback_model(stream: Stream, raw: Seq<char>) -> EventModel {
    match stream {
        Stream::Chat => EventModel::Chat { author: anon(), text: raw },
        Stream::Canvas => EventModel::Canvas { author: anon(), step: Some(invalid_marker()) },
    }
}

/// Whether an event belongs on `stream`.
pub open spec fn on_stream(e: EventModel, stream: Stream) -> bool {
    match e {
        EventModel::Chat { .. } => stream == Stream::Chat,
        EventModel::Canvas { .. } => stream == Stream::Canvas,
    }
}

/// The event that a frame with text `raw` becomes on `stream`, given what the
/// decoder made of it: the decoded event where there is one that belongs on
/// the stream, the fallback event otherwise.
pub open spec fn normalized(stream: Stream, raw: Seq<char>, decoded: Option<EventModel>) -> EventModel {
    match decoded {
        Some(e) => if on_stream(e, stream) { e } else { fallback_model(stream, raw) },
        None => fallback_model(stream, raw),
    }
}

/// The name under which undecodable frames are published.
pub fn anon_author() -> (r: String)
    ensures
        r@ == anon(),
{
    proof { reveal_strlit("anon"); }
    "anon".to_owned()
}

impl Step {
    /// The step that marks an undecodable canvas frame.
    pub fn invalid_marker() -> (r: Step)
        ensures
            r@ == invalid_marker(),
    {
        proof { reveal_strlit("red"); }
        Step { id: INVALID_STEP_ID, coords: Vec::new(), color: "red".to_owned() }
    }

    /// A copy of this step that shares nothing with it.
    pub fn duplicate(&self) -> (r: Step)
        ensures
            r@ == self@,
    {
        let mut coords: Vec<i32> = Vec::new();
        let mut i: usize = 0;
        while i < self.coords.len()
            invariant
                i <= self.coords.len(),
                coords@ == self.coords@.subrange(0, i as int),
            decreases self.coords.len() - i,
        {
            coords.push(self.coords[i]);
            i = i + 1;
        }
        assert(coords@ =~= self.coords@);
        Step { id: self.id, coords, color: self.color.clone() }
    }
}

impl Event {
    /// The event broadcast in place of an undecodable frame with text `raw`.
    pub fn fallback(stream: Stream, raw: &str) -> (r: Event)
        ensures
            r@ == fallback_model(stream, raw@),
    {
        match stream {
            Stream::Chat => Event::Chat { author: anon_author(), text: raw.to_owned() },
            Stream::Canvas => Event::Canvas { author: anon_author(), step: Some(Step::invalid_marker()) },
        }
    }

    /// Whether this event belongs on `stream`.
    pub fn is_on(&self, stream: Stream) -> (r: bool)
        ensures
            r == on_stream(self@, stream),
    {
        match self {
            Event::Chat { .. } => stream == Stream::Chat,
            Event::Canvas { .. } => stream == Stream::Canvas,
        }
    }
}

/// Turns an inbound frame into the event that is broadcast for it. `decoded`
/// is what the wire decoder made of `raw` on `stream`, `None` where it failed.
/// A frame is never dropped: where no decoded event belongs on the stream, the
/// stream's fallback event stands in for it.
pub fn normalize(stream: Stream, raw: &str, decoded: Option<Event>) -> (r: Event)
    ensures
        r@ == normalized(stream, raw@, match decoded {
            Some(e) => Some(e@),
            None => None,
        }),
{
    match decoded {
        Some(e) => {
            if e.is_on(stream) {
                e
            } else {
                Event::fallback(stream, raw)
            }
        },
        None => Event::fallback(stream, raw),
    }
}

} // verus!
