//! The events that are published about a service.
use vstd::prelude::*;
use vstd::string::StringExecFns;

verus! {

/// How serious an event is.
#[derive(Clone, Copy, Debug, PartialEq, Eq, Structural)]
pub enum EventType {
    Normal,
    Warning,
}

/// The reason that every event gives.
pub const DNS_UPDATE: &'static str = "dnsUpdate";

/// Something that happened to the records of a service.
#[derive(Debug)]
pub struct Event {
    pub type_: EventType,
    pub action: String,
    pub reason: String,
    pub note: Option<String>,
}

/// The mathematical content of an [`Event`].
#[verifier::ext_equal]
pub struct EventView {
    pub type_: EventType,
    pub action: Seq<char>,
    pub reason: Seq<char>,
    pub note: Option<Seq<char>>,
}

impl View for Event {
    type V = EventView;

    open spec fn view(&self) -> EventView {
        EventView {
            type_: self.type_,
            action: self.action@,
            reason: self.reason@,
            note: match self.note {
                Some(note) => Some(note@),
                None => None,
            },
        }
    }
}

/// The contents of a sequence of events.
pub open spec fn event_views(events: Seq<Event>) -> Seq<EventView> {
    events.map_values(|e: Event| e@)
}

/// The contents of an optional event.
pub open spec fn event_view(event: Option<Event>) -> Option<EventView> {
    match event {
        Some(event) => Some(event@),
        None => None,
    }
}

/// A record that leads from `name` to `target` was added.
pub open spec fn added(name: Seq<char>, target: Seq<char>) -> EventView {
    EventView {
        type_: EventType::Normal,
        action: "add"@,
        reason: DNS_UPDATE@,
        note: Some("adding dns record mapping '"@ + name + "' to '"@ + target + "'"@),
    }
}

/// The records of `name` were removed.
pub open spec fn removed(name: Seq<char>) -> EventView {
    EventView {
        type_: EventType::Normal,
        action: "remove"@,
        reason: DNS_UPDATE@,
        note: Some("removing dns record '"@ + name + "'"@),
    }
}

/// The records could not be brought up to date because of `error`.
pub open spec fn failed(error: Seq<char>) -> EventView {
    EventView {
        type_: EventType::Warning,
        action: "error"@,
        reason: DNS_UPDATE@,
        note: Some("failed to update dns: "@ + error),
    }
}

impl Event {
    /// A record that leads from `name` to `target` was added.
    pub fn added(name: &str, target: &str) -> (r: Event)
        ensures
            r@ == added(name@, target@),
    {
        let mut note = "adding dns record mapping '".to_owned();
        note.append(name);
        note.append("' to '");
        note.append(target);
        note.append("'");
        Event {
            type_: EventType::Normal,
            action: "add".to_owned(),
            reason: DNS_UPDATE.to_owned(),
            note: Some(note),
        }
    }

    /// The records of `name` were removed.
    pub fn removed(name: &str) -> (r: Event)
        ensures
            r@ == removed(name@),
    {
        let mut note = "removing dns record '".to_owned();
        note.append(name);
        note.append("'");
        Event {
            type_: EventType::Normal,
            action: "remove".to_owned(),
            reason: DNS_UPDATE.to_owned(),
            note: Some(note),
        }
    }

    /// The records could not be brought up to date because of `error`.
    pub fn failed(error: &str) -> (r: Event)
        ensures
            r@ == failed(error@),
    {
        let mut note = "failed to update dns: ".to_owned();
        note.append(error);
        Event {
            type_: EventType::Warning,
            action: "error".to_owned(),
            reason: DNS_UPDATE.to_owned(),
            note: Some(note),
        }
    }
}

/// An event about a record that was added is an ordinary one, and names the record and what it leads
/// to.
pub proof fn law_added_event(name: Seq<char>, target: Seq<char>)
    ensures
        added(name, target).type_ == EventType::Normal,
        added(name, target).action == "add"@,
        added(name, target).reason == "dnsUpdate"@,
        added(name, target).note == Some(
            "adding dns record mapping '"@ + name + "' to '"@ + target + "'"@,
        ),
{
}

/// An event about records that were removed is an ordinary one, and names their owner.
pub proof fn law_removed_event(name: Seq<char>)
    ensures
        removed(name).type_ == EventType::Normal,
        removed(name).action == "remove"@,
        removed(name).reason == "dnsUpdate"@,
        removed(name).note == Some("removing dns record '"@ + name + "'"@),
{
}

/// An event about a failure is a warning, and gives the text of the error.
pub proof fn law_failed_event(error: Seq<char>)
    ensures
        failed(error).type_ == EventType::Warning,
        failed(error).action == "error"@,
        failed(error).reason == "dnsUpdate"@,
        failed(error).note == Some("failed to update dns: "@ + error),
{
}

/// The view of an event holds all that is published of it, and the views of events keep their order.
pub proof fn law_event_view_is_faithful(event: Event, events: Seq<Event>)
    ensures
        event@.type_ == event.type_,
        event@.action == event.action@,
        event@.reason == event.reason@,
        event@.note is Some <==> event.note is Some,
        event.note is Some ==> event@.note->0 == event.note->0@,
        event_view(Some(event)) == Some(event@),
        event_view(None) is None,
        event_views(events).len() == events.len(),
        forall|i: int| 0 <= i < events.len() ==> #[trigger] event_views(events)[i] == events[i]@,
{
}

} // verus!
