//! Events as rows of the event store, and back.

use crate::event::{Event, EventTransactionId, EventView, Timestamp};
use crate::oid::{lemma_oid_round_trip, spec_oid_hex, spec_parse_oid, Oid, OidError};
use crate::text::{clone_optional, str_equals};
use vstd::prelude::*;

verus! {

/// The type of the row of a commit event.
pub const COMMIT_TYPE: &'static str = "commit";

/// The type of the row of a hide event.
pub const HIDE_TYPE: &'static str = "hide";

/// The type of the row of an unhide event.
pub const UNHIDE_TYPE: &'static str = "unhide";

/// The type of the row of a rewrite event.
pub const REWRITE_TYPE: &'static str = "rewrite";

/// The type of the row of a reference update.
pub const REF_MOVE_TYPE: &'static str = "ref-move";

/// A row of the table of events, without its number.
#[derive(Debug, PartialEq, Eq)]
pub struct Row {
    pub timestamp: Timestamp,
    pub type_: String,
    pub event_tx_id: isize,
    pub ref1: Option<String>,
    pub ref2: Option<String>,
    pub ref3: Option<String>,
    pub message: Option<String>,
}

/// A row as a plain value.
pub struct RowView {
    pub timestamp: Timestamp,
    pub type_: Seq<char>,
    pub event_tx_id: isize,
    pub ref1: Option<Seq<char>>,
    pub ref2: Option<Seq<char>>,
    pub ref3: Option<Seq<char>>,
    pub message: Option<Seq<char>>,
}

impl View for Row {
    type V = RowView;

    open spec fn view(&self) -> RowView {
        RowView {
            timestamp: self.timestamp,
            type_: self.type_@,
            event_tx_id: self.event_tx_id,
            ref1: self.ref1.deep_view(),
            ref2: self.ref2.deep_view(),
            ref3: self.ref3.deep_view(),
            message: self.message.deep_view(),
        }
    }
}

/// Why a row is no event.
#[derive(Clone, Copy, Debug, PartialEq, Eq, Structural)]
pub enum RowError {
    /// The type of the row is none of the five.
    UnknownType,
    /// A field that the type needs is empty.
    MissingField,
    /// A field that has to name a commit does not.
    MalformedOid(OidError),
}

/// The row of `event`. The first field holds the commit of a commit, hide or
/// unhide event, the old commit of a rewrite, the name of an updated
/// reference; the second the new commit of a rewrite, the old target of a
/// reference; the third the new target of a reference.
pub open spec fn spec_row_of(event: EventView) -> RowView {
    match event {
        EventView::Commit { timestamp, event_tx_id, commit_oid } => RowView {
            timestamp,
            type_: COMMIT_TYPE@,
            event_tx_id: event_tx_id.0,
            ref1: Some(spec_oid_hex(commit_oid)),
            ref2: None,
            ref3: None,
            message: None,
        },
        EventView::Hide { timestamp, event_tx_id, commit_oid } => RowView {
            timestamp,
            type_: HIDE_TYPE@,
            event_tx_id: event_tx_id.0,
            ref1: Some(spec_oid_hex(commit_oid)),
            ref2: None,
            ref3: None,
            message: None,
        },
        EventView::Unhide { timestamp, event_tx_id, commit_oid } => RowView {
            timestamp,
            type_: UNHIDE_TYPE@,
            event_tx_id: event_tx_id.0,
            ref1: Some(spec_oid_hex(commit_oid)),
            ref2: None,
            ref3: None,
            message: None,
        },
        EventView::Rewrite { timestamp, event_tx_id, old_commit_oid, new_commit_oid } => RowView {
            timestamp,
            type_: REWRITE_TYPE@,
            event_tx_id: event_tx_id.0,
            ref1: Some(spec_oid_hex(old_commit_oid)),
            ref2: Some(spec_oid_hex(new_commit_oid)),
            ref3: None,
            message: None,
        },
        EventView::RefUpdate {
            timestamp,
            event_tx_id,
            ref_name,
            old_ref,
            new_ref,
            message,
        } => RowView {
            timestamp,
            type_: REF_MOVE_TYPE@,
            event_tx_id: event_tx_id.0,
            ref1: Some(ref_name),
            ref2: old_ref,
            ref3: new_ref,
            message,
        },
    }
}

/// The commit that the field `field` names.
pub open spec fn field_oid(field: Option<Seq<char>>) -> Result<Oid, RowError> {
    match field {
        None => Err(RowError::MissingField),
        Some(text) => match spec_parse_oid(text) {
            Ok(oid) => Ok(oid),
            Err(error) => Err(RowError::MalformedOid(error)),
        },
    }
}

/// The event of `row`, if the row is one: its type is one of the five, the
/// fields that the type needs are there, and those that have to name a commit
/// do. Fields that the type does not use are not looked at.
pub open spec fn spec_event_of(row: RowView) -> Result<EventView, RowError> {
    let timestamp = row.timestamp;
    let event_tx_id = EventTransactionId(row.event_tx_id);
    if row.type_ == COMMIT_TYPE@ {
        match field_oid(row.ref1) {
            Ok(commit_oid) => Ok(EventView::Commit { timestamp, event_tx_id, commit_oid }),
            Err(error) => Err(error),
        }
    } else if row.type_ == HIDE_TYPE@ {
        match field_oid(row.ref1) {
            Ok(commit_oid) => Ok(EventView::Hide { timestamp, event_tx_id, commit_oid }),
            Err(error) => Err(error),
        }
    } else if row.type_ == UNHIDE_TYPE@ {
        match field_oid(row.ref1) {
            Ok(commit_oid) => Ok(EventView::Unhide { timestamp, event_tx_id, commit_oid }),
            Err(error) => Err(error),
        }
    } else if row.type_ == REWRITE_TYPE@ {
        match field_oid(row.ref1) {
            Ok(old_commit_oid) => match field_oid(row.ref2) {
                Ok(new_commit_oid) => Ok(
                    EventView::Rewrite { timestamp, event_tx_id, old_commit_oid, new_commit_oid },
                ),
                Err(error) => Err(error),
            },
            Err(error) => Err(error),
        }
    } else if row.type_ == REF_MOVE_TYPE@ {
        match row.ref1 {
            Some(ref_name) => Ok(
                EventView::RefUpdate {
                    timestamp,
                    event_tx_id,
                    ref_name,
                    old_ref: row.ref2,
                    new_ref: row.ref3,
                    message: row.message,
                },
            ),
            None => Err(RowError::MissingField),
        }
    } else {
        Err(RowError::UnknownType)
    }
}

/// The five types are five.
pub proof fn lemma_types_differ()
    ensures
        COMMIT_TYPE@ != HIDE_TYPE@,
        COMMIT_TYPE@ != UNHIDE_TYPE@,
        COMMIT_TYPE@ != REWRITE_TYPE@,
        COMMIT_TYPE@ != REF_MOVE_TYPE@,
        HIDE_TYPE@ != UNHIDE_TYPE@,
        HIDE_TYPE@ != REWRITE_TYPE@,
        HIDE_TYPE@ != REF_MOVE_TYPE@,
        UNHIDE_TYPE@ != REWRITE_TYPE@,
        UNHIDE_TYPE@ != REF_MOVE_TYPE@,
        REWRITE_TYPE@ != REF_MOVE_TYPE@,
{
    reveal_strlit("commit");
    reveal_strlit("hide");
    reveal_strlit("unhide");
    reveal_strlit("rewrite");
    reveal_strlit("ref-move");
    assert(COMMIT_TYPE@.len() == 6 && COMMIT_TYPE@[0] == 'c');
    assert(HIDE_TYPE@.len() == 4);
    assert(UNHIDE_TYPE@.len() == 6 && UNHIDE_TYPE@[0] == 'u');
    assert(REWRITE_TYPE@.len() == 7);
    assert(REF_MOVE_TYPE@.len() == 8);
}

/// An event that is written as a row and read back is the same event.
pub proof fn lemma_row_round_trip(event: EventView)
    ensures
        spec_event_of(spec_row_of(event)) == Ok::<EventView, RowError>(event),
{
    lemma_types_differ();
    match event {
        EventView::Commit { commit_oid, .. } => {
            lemma_oid_round_trip(commit_oid);
        },
        EventView::Hide { commit_oid, .. } => {
            lemma_oid_round_trip(commit_oid);
        },
        EventView::Unhide { commit_oid, .. } => {
            lemma_oid_round_trip(commit_oid);
        },
        EventView::Rewrite { old_commit_oid, new_commit_oid, .. } => {
            lemma_oid_round_trip(old_commit_oid);
            lemma_oid_round_trip(new_commit_oid);
        },
        EventView::RefUpdate { .. } => {},
    }
}

/// The row of `event`.
pub fn event_to_row(event: &Event) -> (row: Row)
    ensures
        row@ == spec_row_of(event@),
{
    match event {
        Event::CommitEvent { timestamp, event_tx_id, commit_oid } => Row {
            timestamp: *timestamp,
            type_: COMMIT_TYPE.to_owned(),
            event_tx_id: event_tx_id.0,
            ref1: Some(commit_oid.to_hex()),
            ref2: None,
            ref3: None,
            message: None,
        },
        Event::HideEvent { timestamp, event_tx_id, commit_oid } => Row {
            timestamp: *timestamp,
            type_: HIDE_TYPE.to_owned(),
            event_tx_id: event_tx_id.0,
            ref1: Some(commit_oid.to_hex()),
            ref2: None,
            ref3: None,
            message: None,
        },
        Event::UnhideEvent { timestamp, event_tx_id, commit_oid } => Row {
            timestamp: *timestamp,
            type_: UNHIDE_TYPE.to_owned(),
            event_tx_id: event_tx_id.0,
            ref1: Some(commit_oid.to_hex()),
            ref2: None,
            ref3: None,
            message: None,
        },
        Event::RewriteEvent { timestamp, event_tx_id, old_commit_oid, new_commit_oid } => Row {
            timestamp: *timestamp,
            type_: REWRITE_TYPE.to_owned(),
            event_tx_id: event_tx_id.0,
            ref1: Some(old_commit_oid.to_hex()),
            ref2: Some(new_commit_oid.to_hex()),
            ref3: None,
            message: None,
        },
        Event::RefUpdateEvent {
            timestamp,
            event_tx_id,
            ref_name,
            old_ref,
            new_ref,
            message,
        } => Row {
            timestamp: *timestamp,
            type_: REF_MOVE_TYPE.to_owned(),
            event_tx_id: event_tx_id.0,
            ref1: Some(ref_name.clone()),
            ref2: clone_optional(old_ref),
            ref3: clone_optional(new_ref),
            message: clone_optional(message),
        },
    }
}

/// The commit that the field `field` names.
fn read_oid(field: &Option<String>) -> (oid: Result<Oid, RowError>)
    ensures
        oid == field_oid(field.deep_view()),
{
    match field {
        None => Err(RowError::MissingField),
        Some(text) => match Oid::parse(text.as_str()) {
            Ok(oid) => Ok(oid),
            Err(error) => Err(RowError::MalformedOid(error)),
        },
    }
}

/// The event of `row`; an error if the row is none.
pub fn row_to_event(row: &Row) -> (event: Result<Event, RowError>)
    ensures
        match event {
            Ok(found) => spec_event_of(row@) == Ok::<EventView, RowError>(found@),
            Err(error) => spec_event_of(row@) == Err::<EventView, RowError>(error),
        },
{
    let timestamp = row.timestamp;
    let event_tx_id = EventTransactionId(row.event_tx_id);
    let type_ = row.type_.as_str();
    if str_equals(type_, COMMIT_TYPE) {
        match read_oid(&row.ref1) {
            Ok(commit_oid) => Ok(Event::CommitEvent { timestamp, event_tx_id, commit_oid }),
            Err(error) => Err(error),
        }
    } else if str_equals(type_, HIDE_TYPE) {
        match read_oid(&row.ref1) {
            Ok(commit_oid) => Ok(Event::HideEvent { timestamp, event_tx_id, commit_oid }),
            Err(error) => Err(error),
        }
    } else if str_equals(type_, UNHIDE_TYPE) {
        match read_oid(&row.ref1) {
            Ok(commit_oid) => Ok(Event::UnhideEvent { timestamp, event_tx_id, commit_oid }),
            Err(error) => Err(error),
        }
    } else if str_equals(type_, REWRITE_TYPE) {
        match read_oid(&row.ref1) {
            Ok(old_commit_oid) => match read_oid(&row.ref2) {
                Ok(new_commit_oid) => Ok(
                    Event::RewriteEvent { timestamp, event_tx_id, old_commit_oid, new_commit_oid },
                ),
                Err(error) => Err(error),
            },
            Err(error) => Err(error),
        }
    } else if str_equals(type_, REF_MOVE_TYPE) {
        match &row.ref1 {
            Some(ref_name) => Ok(
                Event::RefUpdateEvent {
                    timestamp,
                    event_tx_id,
                    ref_name: ref_name.clone(),
                    old_ref: clone_optional(&row.ref2),
                    new_ref: clone_optional(&row.ref3),
                    message: clone_optional(&row.message),
                },
            ),
            None => Err(RowError::MissingField),
        }
    } else {
        Err(RowError::UnknownType)
    }
}

} // verus!
