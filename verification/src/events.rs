//! The events that the host sends to its clients.

use vstd::prelude::*;

use crate::json::{empty_object, json_text, object, Json, JsonView};

verus! {

/// An event on the wire to the browser.
#[derive(Debug, PartialEq)]
pub enum Event {
    /// A named event with a value.
    Custom { name: String, value: Json },
    /// An event that was already put into its wire form.
    Encoded(String),
    /// The state that a client starts from.
    StateSnapshot(Json),
    /// An assistant message opens.
    TextMessageStart { id: String },
    /// An open assistant message grows.
    TextMessageContent { id: String, delta: String },
    /// An open assistant message ends.
    TextMessageEnd { id: String },
}

/// An event in contracts.
pub enum EventView {
    Custom { name: Seq<char>, value: JsonView },
    Encoded(Seq<char>),
    StateSnapshot(JsonView),
    TextMessageStart { id: Seq<char> },
    TextMessageContent { id: Seq<char>, delta: Seq<char> },
    TextMessageEnd { id: Seq<char> },
}

impl View for Event {
    type V = EventView;

    open spec fn view(&self) -> EventView {
        match self {
            Event::Custom { name, value } => EventView::Custom { name: name@, value: value@ },
            Event::Encoded(text) => EventView::Encoded(text@),
            Event::StateSnapshot(value) => EventView::StateSnapshot(value@),
            Event::TextMessageStart { id } => EventView::TextMessageStart { id: id@ },
            Event::TextMessageContent { id, delta } => EventView::TextMessageContent {
                id: id@,
                delta: delta@,
            },
            Event::TextMessageEnd { id } => EventView::TextMessageEnd { id: id@ },
        }
    }
}

/// The events of a list.
pub open spec fn event_views(events: Seq<Event>) -> Seq<EventView> {
    Seq::new(events.len(), |i: int| events[i]@)
}

/// A named event with a value.
pub fn custom(name: &str, value: Json) -> (event: Event)
    ensures
        event@ == (EventView::Custom { name: name@, value: value@ }),
{
    Event::Custom { name: name.to_owned(), value }
}

/// The event that tells clients to drop a decision.
pub open spec fn decision_closed(id: Seq<char>, reason: Seq<char>) -> EventView {
    EventView::Custom {
        name: "surface.decision.closed"@,
        value: empty_object().with("id"@, JsonView::Text(id)).with(
            "reason"@,
            JsonView::Text(reason),
        ),
    }
}

/// The event that tells clients to drop a decision.
pub fn decision_closed_event(id: &str, reason: &str) -> (event: Event)
    ensures
        event@ == decision_closed(id@, reason@),
{
    custom(
        "surface.decision.closed",
        object().with("id", json_text(id)).with("reason", json_text(reason)),
    )
}

} // verus!
