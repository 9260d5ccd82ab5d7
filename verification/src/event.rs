//! The events of the log: what is recorded each time the repository changes.

use crate::oid::Oid;
use crate::text::{clone_optional, str_equals};
use vstd::prelude::*;

verus! {

/// The reference that names the checked-out commit.
pub const HEAD: &'static str = "HEAD";

/// The transaction that an event belongs to. Events recorded by one hook
/// invocation share it.
#[derive(Clone, Copy, Debug, PartialEq, Eq, Structural, Hash)]
pub struct EventTransactionId(pub isize);

/// A point in time: seconds since the UNIX epoch as a double-precision number,
/// held by its bit pattern.
#[derive(Clone, Copy, Debug, PartialEq, Eq, Structural, Hash)]
pub struct Timestamp {
    pub bits: u64,
}

/// One recorded change.
#[derive(Debug, PartialEq, Eq)]
pub enum Event {
    /// A commit was made.
    CommitEvent { timestamp: Timestamp, event_tx_id: EventTransactionId, commit_oid: Oid },
    /// A commit was hidden.
    HideEvent { timestamp: Timestamp, event_tx_id: EventTransactionId, commit_oid: Oid },
    /// A commit was made visible again.
    UnhideEvent { timestamp: Timestamp, event_tx_id: EventTransactionId, commit_oid: Oid },
    /// A commit was replaced by another.
    RewriteEvent {
        timestamp: Timestamp,
        event_tx_id: EventTransactionId,
        old_commit_oid: Oid,
        new_commit_oid: Oid,
    },
    /// A reference was created, moved or deleted.
    RefUpdateEvent {
        timestamp: Timestamp,
        event_tx_id: EventTransactionId,
        ref_name: String,
        old_ref: Option<String>,
        new_ref: Option<String>,
        message: Option<String>,
    },
}

/// An event as a plain value: strings by their characters.
pub enum EventView {
    Commit { timestamp: Timestamp, event_tx_id: EventTransactionId, commit_oid: Oid },
    Hide { timestamp: Timestamp, event_tx_id: EventTransactionId, commit_oid: Oid },
    Unhide { timestamp: Timestamp, event_tx_id: EventTransactionId, commit_oid: Oid },
    Rewrite {
        timestamp: Timestamp,
        event_tx_id: EventTransactionId,
        old_commit_oid: Oid,
        new_commit_oid: Oid,
    },
    RefUpdate {
        timestamp: Timestamp,
        event_tx_id: EventTransactionId,
        ref_name: Seq<char>,
        old_ref: Option<Seq<char>>,
        new_ref: Option<Seq<char>>,
        message: Option<Seq<char>>,
    },
}

impl View for Event {
    type V = EventView;

    open spec fn view(&self) -> EventView {
        match *self {
            Event::CommitEvent { timestamp, event_tx_id, commit_oid } => EventView::Commit {
                timestamp,
                event_tx_id,
                commit_oid,
            },
            Event::HideEvent { timestamp, event_tx_id, commit_oid } => EventView::Hide {
                timestamp,
                event_tx_id,
                commit_oid,
            },
            Event::UnhideEvent { timestamp, event_tx_id, commit_oid } => EventView::Unhide {
                timestamp,
                event_tx_id,
                commit_oid,
            },
            Event::RewriteEvent {
                timestamp,
                event_tx_id,
                old_commit_oid,
                new_commit_oid,
            } => EventView::Rewrite { timestamp, event_tx_id, old_commit_oid, new_commit_oid },
            Event::RefUpdateEvent {
                timestamp,
                event_tx_id,
                ref_name,
                old_ref,
                new_ref,
                message,
            } => EventView::RefUpdate {
                timestamp,
                event_tx_id,
                ref_name: ref_name@,
                old_ref: old_ref.deep_view(),
                new_ref: new_ref.deep_view(),
                message: message.deep_view(),
            },
        }
    }
}

impl DeepView for Event {
    type V = EventView;

    open spec fn deep_view(&self) -> EventView {
        self@
    }
}

impl EventView {
    /// When the event was recorded.
    pub open spec fn timestamp(self) -> Timestamp {
        match self {
            EventView::Commit { timestamp, .. } => timestamp,
            EventView::Hide { timestamp, .. } => timestamp,
            EventView::Unhide { timestamp, .. } => timestamp,
            EventView::Rewrite { timestamp, .. } => timestamp,
            EventView::RefUpdate { timestamp, .. } => timestamp,
        }
    }

    /// The transaction of the event.
    pub open spec fn event_tx_id(self) -> EventTransactionId {
        match self {
            EventView::Commit { event_tx_id, .. } => event_tx_id,
            EventView::Hide { event_tx_id, .. } => event_tx_id,
            EventView::Unhide { event_tx_id, .. } => event_tx_id,
            EventView::Rewrite { event_tx_id, .. } => event_tx_id,
            EventView::RefUpdate { event_tx_id, .. } => event_tx_id,
        }
    }

    /// Whether the event moves, creates or deletes `HEAD`: a checkout.
    pub open spec fn is_head_update(self) -> bool {
        self matches EventView::RefUpdate { ref_name, .. } && ref_name == HEAD@
    }

    /// The same event, recorded at `timestamp` in transaction `event_tx_id`.
    pub open spec fn recorded(self, timestamp: Timestamp, event_tx_id: EventTransactionId) -> EventView {
        match self {
            EventView::Commit { commit_oid, .. } => EventView::Commit {
                timestamp,
                event_tx_id,
                commit_oid,
            },
            EventView::Hide { commit_oid, .. } => EventView::Hide {
                timestamp,
                event_tx_id,
                commit_oid,
            },
            EventView::Unhide { commit_oid, .. } => EventView::Unhide {
                timestamp,
                event_tx_id,
                commit_oid,
            },
            EventView::Rewrite { old_commit_oid, new_commit_oid, .. } => EventView::Rewrite {
                timestamp,
                event_tx_id,
                old_commit_oid,
                new_commit_oid,
            },
            EventView::RefUpdate { ref_name, old_ref, new_ref, message, .. } => EventView::RefUpdate {
                timestamp,
                event_tx_id,
                ref_name,
                old_ref,
                new_ref,
                message,
            },
        }
    }
}

impl Clone for Event {
    fn clone(&self) -> (copy: Self)
        ensures
            copy@ == self@,
    {
        match self {
            Event::CommitEvent { timestamp, event_tx_id, commit_oid } => Event::CommitEvent {
                timestamp: *timestamp,
                event_tx_id: *event_tx_id,
                commit_oid: *commit_oid,
            },
            Event::HideEvent { timestamp, event_tx_id, commit_oid } => Event::HideEvent {
                timestamp: *timestamp,
                event_tx_id: *event_tx_id,
                commit_oid: *commit_oid,
            },
            Event::UnhideEvent { timestamp, event_tx_id, commit_oid } => Event::UnhideEvent {
                timestamp: *timestamp,
                event_tx_id: *event_tx_id,
                commit_oid: *commit_oid,
            },
            Event::RewriteEvent {
                timestamp,
                event_tx_id,
                old_commit_oid,
                new_commit_oid,
            } => Event::RewriteEvent {
                timestamp: *timestamp,
                event_tx_id: *event_tx_id,
                old_commit_oid: *old_commit_oid,
                new_commit_oid: *new_commit_oid,
            },
            Event::RefUpdateEvent {
                timestamp,
                event_tx_id,
                ref_name,
                old_ref,
                new_ref,
                message,
            } => Event::RefUpdateEvent {
                timestamp: *timestamp,
                event_tx_id: *event_tx_id,
                ref_name: ref_name.clone(),
                old_ref: clone_optional(old_ref),
                new_ref: clone_optional(new_ref),
                message: clone_optional(message),
            },
        }
    }
}

impl Event {
    /// When the event was recorded.
    pub fn get_timestamp(&self) -> (timestamp: Timestamp)
        ensures
            timestamp == self@.timestamp(),
    {
        match self {
            Event::CommitEvent { timestamp, .. } => *timestamp,
            Event::HideEvent { timestamp, .. } => *timestamp,
            Event::UnhideEvent { timestamp, .. } => *timestamp,
            Event::RewriteEvent { timestamp, .. } => *timestamp,
            Event::RefUpdateEvent { timestamp, .. } => *timestamp,
        }
    }

    /// The transaction of the event.
    pub fn get_event_tx_id(&self) -> (event_tx_id: EventTransactionId)
        ensures
            event_tx_id == self@.event_tx_id(),
    {
        match self {
            Event::CommitEvent { event_tx_id, .. } => *event_tx_id,
            Event::HideEvent { event_tx_id, .. } => *event_tx_id,
            Event::UnhideEvent { event_tx_id, .. } => *event_tx_id,
            Event::RewriteEvent { event_tx_id, .. } => *event_tx_id,
            Event::RefUpdateEvent { event_tx_id, .. } => *event_tx_id,
        }
    }

    /// Whether the event moves, creates or deletes `HEAD`.
    pub fn is_head_update(&self) -> (head: bool)
        ensures
            head == self@.is_head_update(),
    {
        match self {
            Event::RefUpdateEvent { ref_name, .. } => str_equals(ref_name.as_str(), HEAD),
            _ => false,
        }
    }
}

/// A transaction identifier for examples and tests.
pub fn make_dummy_transaction_id(id: isize) -> (event_tx_id: EventTransactionId)
    ensures
        event_tx_id == EventTransactionId(id),
{
    EventTransactionId(id)
}

/// The events of `events` as plain values.
pub open spec fn event_views(events: Seq<Event>) -> Seq<EventView> {
    events.map_values(|event: Event| event@)
}

} // verus!
