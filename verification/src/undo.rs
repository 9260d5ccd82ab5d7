//! Undo: the events that take back what happened after a point in the log.

use crate::event::{event_views, Event, EventTransactionId, EventView, Timestamp, HEAD};
use crate::lines::push_all;
use crate::oid::{spec_parse_oid, Oid, OidError};
use crate::replay::{clamp, EventCursor, EventReplayer};
use crate::text::{
    chars_string, push_decimal, spec_decimal, spec_trim, str_chars, str_equals, trim_bounds,
};
use vstd::prelude::*;

verus! {

/// The event that takes `event` back: a commit or an unhiding is answered by
/// hiding, a hiding by unhiding, a rewrite by the rewrite in the other
/// direction, and a reference update by the update from the new target to the
/// old, without a message.
pub open spec fn spec_inverse_event(
    event: EventView,
    timestamp: Timestamp,
    event_tx_id: EventTransactionId,
) -> EventView {
    match event {
        EventView::Commit { commit_oid, .. } => EventView::Hide {
            timestamp,
            event_tx_id,
            commit_oid,
        },
        EventView::Unhide { commit_oid, .. } => EventView::Hide {
            timestamp,
            event_tx_id,
            commit_oid,
        },
        EventView::Hide { commit_oid, .. } => EventView::Unhide {
            timestamp,
            event_tx_id,
            commit_oid,
        },
        EventView::Rewrite { old_commit_oid, new_commit_oid, .. } => EventView::Rewrite {
            timestamp,
            event_tx_id,
            old_commit_oid: new_commit_oid,
            new_commit_oid: old_commit_oid,
        },
        EventView::RefUpdate { ref_name, old_ref, new_ref, .. } => EventView::RefUpdate {
            timestamp,
            event_tx_id,
            ref_name,
            old_ref: new_ref,
            new_ref: old_ref,
            message: None,
        },
    }
}

/// The event that takes `event` back, recorded at `timestamp` in transaction
/// `event_tx_id`.
pub fn inverse_event(event: Event, timestamp: Timestamp, event_tx_id: EventTransactionId) -> (inverse:
    Event)
    ensures
        inverse@ == spec_inverse_event(event@, timestamp, event_tx_id),
{
    match event {
        Event::CommitEvent { timestamp: _, event_tx_id: _, commit_oid } => Event::HideEvent {
            timestamp,
            event_tx_id,
            commit_oid,
        },
        Event::UnhideEvent { timestamp: _, event_tx_id: _, commit_oid } => Event::HideEvent {
            timestamp,
            event_tx_id,
            commit_oid,
        },
        Event::HideEvent { timestamp: _, event_tx_id: _, commit_oid } => Event::UnhideEvent {
            timestamp,
            event_tx_id,
            commit_oid,
        },
        Event::RewriteEvent {
            timestamp: _,
            event_tx_id: _,
            old_commit_oid,
            new_commit_oid,
        } => Event::RewriteEvent {
            timestamp,
            event_tx_id,
            old_commit_oid: new_commit_oid,
            new_commit_oid: old_commit_oid,
        },
        Event::RefUpdateEvent {
            timestamp: _,
            event_tx_id: _,
            ref_name,
            old_ref,
            new_ref,
            message: _,
        } => Event::RefUpdateEvent {
            timestamp,
            event_tx_id,
            ref_name,
            old_ref: new_ref,
            new_ref: old_ref,
            message: None,
        },
    }
}

/// Whether taking `event` back twice gives `event` again: true of every event
/// but a commit, which comes back as an unhiding, and a reference update with
/// a message, which comes back without it.
pub open spec fn survives_double_inverse(event: EventView) -> bool {
    match event {
        EventView::Commit { .. } => false,
        EventView::RefUpdate { message, .. } => message is None,
        _ => true,
    }
}

/// The inverse of the inverse of an event is that event, but for when it was
/// recorded and in which transaction.
pub proof fn lemma_inverse_of_inverse(
    event: EventView,
    first_timestamp: Timestamp,
    first_tx_id: EventTransactionId,
    second_timestamp: Timestamp,
    second_tx_id: EventTransactionId,
)
    requires
        survives_double_inverse(event),
    ensures
        spec_inverse_event(
            spec_inverse_event(event, first_timestamp, first_tx_id),
            second_timestamp,
            second_tx_id,
        ) == event.recorded(second_timestamp, second_tx_id),
{
}

/// The events of `events` that are no `HEAD` updates, in order.
pub open spec fn without_head_updates(events: Seq<EventView>) -> Seq<EventView>
    decreases events.len(),
{
    if events.len() == 0 {
        Seq::empty()
    } else if events.last().is_head_update() {
        without_head_updates(events.drop_last())
    } else {
        without_head_updates(events.drop_last()).push(events.last())
    }
}

/// The `HEAD` updates of `events`, in order.
pub open spec fn head_updates(events: Seq<EventView>) -> Seq<EventView>
    decreases events.len(),
{
    if events.len() == 0 {
        Seq::empty()
    } else if events.last().is_head_update() {
        head_updates(events.drop_last()).push(events.last())
    } else {
        head_updates(events.drop_last())
    }
}

/// `events` with every `HEAD` update but the last one left out.
pub open spec fn spec_optimize_inverse_events(events: Seq<EventView>) -> Seq<EventView>
    decreases events.len(),
{
    if events.len() == 0 {
        Seq::empty()
    } else if events.last().is_head_update() {
        without_head_updates(events.drop_last()).push(events.last())
    } else {
        spec_optimize_inverse_events(events.drop_last()).push(events.last())
    }
}

/// Optimizing keeps the events that are no `HEAD` updates, all of them and in
/// order, and of the `HEAD` updates the last one only.
pub proof fn lemma_optimize_keeps_last_head(events: Seq<EventView>)
    ensures
        without_head_updates(spec_optimize_inverse_events(events)) == without_head_updates(events),
        head_updates(spec_optimize_inverse_events(events)) == if head_updates(events).len() == 0 {
            Seq::<EventView>::empty()
        } else {
            seq![head_updates(events).last()]
        },
    decreases events.len(),
{
    if events.len() > 0 {
        let init = events.drop_last();
        let last = events.last();
        if last.is_head_update() {
            let kept = without_head_updates(init);
            lemma_filters_of_filtered(init);
            assert(kept.push(last).drop_last() =~= kept);
        } else {
            lemma_optimize_keeps_last_head(init);
            let kept = spec_optimize_inverse_events(init);
            assert(kept.push(last).drop_last() =~= kept);
        }
    }
}

/// Leaving the `HEAD` updates out leaves none in, and leaves out nothing else.
proof fn lemma_filters_of_filtered(events: Seq<EventView>)
    ensures
        head_updates(without_head_updates(events)) == Seq::<EventView>::empty(),
        without_head_updates(without_head_updates(events)) == without_head_updates(events),
    decreases events.len(),
{
    if events.len() > 0 {
        let init = events.drop_last();
        lemma_filters_of_filtered(init);
        if !events.last().is_head_update() {
            let kept = without_head_updates(init);
            assert(kept.push(events.last()).drop_last() =~= kept);
        }
    }
}

/// The position of the last `HEAD` update in `events`, if there is one.
fn last_head_update(events: &Vec<Event>) -> (last: Option<usize>)
    ensures
        match last {
            Some(at) => {
                &&& at < events.len()
                &&& events[at as int]@.is_head_update()
                &&& forall|j: int| at < j < events.len() ==> !events[j]@.is_head_update()
            },
            None => forall|j: int| 0 <= j < events.len() ==> !events[j]@.is_head_update(),
        },
{
    let mut last: Option<usize> = None;
    let mut i: usize = 0;
    while i < events.len()
        invariant
            i <= events.len(),
            match last {
                Some(at) => {
                    &&& at < i
                    &&& events[at as int]@.is_head_update()
                    &&& forall|j: int| at < j < i ==> !events[j]@.is_head_update()
                },
                None => forall|j: int| 0 <= j < i ==> !events[j]@.is_head_update(),
            },
        decreases events.len() - i,
    {
        if events[i].is_head_update() {
            last = Some(i);
        }
        i += 1;
    }
    last
}

/// Collapses a chain of checkouts into one: of the `HEAD` updates only the last
/// is kept; every other event stays where it is.
pub fn optimize_inverse_events(events: Vec<Event>) -> (optimized: Vec<Event>)
    ensures
        event_views(optimized@) == spec_optimize_inverse_events(event_views(events@)),
{
    let last = last_head_update(&events);
    let ghost views = event_views(events@);
    let mut optimized: Vec<Event> = Vec::new();
    let mut i: usize = 0;
    assert(views.take(0) =~= Seq::<EventView>::empty());
    assert(event_views(optimized@) =~= Seq::<EventView>::empty());
    while i < events.len()
        invariant
            i <= events.len(),
            views == event_views(events@),
            match last {
                Some(at) => {
                    &&& at < events.len()
                    &&& views[at as int].is_head_update()
                    &&& forall|j: int| at < j < events.len() ==> !views[j].is_head_update()
                },
                None => forall|j: int| 0 <= j < events.len() ==> !views[j].is_head_update(),
            },
            event_views(optimized@) == if last is Some && i <= last->0 {
                without_head_updates(views.take(i as int))
            } else {
                spec_optimize_inverse_events(views.take(i as int))
            },
        decreases events.len() - i,
    {
        let ghost before = event_views(optimized@);
        proof {
            assert(views.take(i + 1).drop_last() =~= views.take(i as int));
            assert(views.take(i + 1).last() == views[i as int]);
        }
        let is_last_head = match last {
            Some(at) => at == i,
            None => false,
        };
        if is_last_head || !events[i].is_head_update() {
            let copy = events[i].clone();
            optimized.push(copy);
            assert(event_views(optimized@) =~= before.push(views[i as int]));
        }
        i += 1;
    }
    assert(views.take(events.len() as int) =~= views);
    optimized
}

/// The `HEAD` updates of `events`, then the other events, each group in order.
pub open spec fn spec_checkouts_first(events: Seq<EventView>) -> Seq<EventView> {
    head_updates(events) + without_head_updates(events)
}

/// Moves the checkouts to the front, keeping the order within the checkouts and
/// within the rest. A checkout has to be applied before the reference it may
/// point at moves.
pub fn checkouts_first(events: Vec<Event>) -> (ordered: Vec<Event>)
    ensures
        event_views(ordered@) == spec_checkouts_first(event_views(events@)),
{
    let ghost views = event_views(events@);
    let mut ordered: Vec<Event> = Vec::new();
    let mut i: usize = 0;
    assert(views.take(0) =~= Seq::<EventView>::empty());
    assert(event_views(ordered@) =~= Seq::<EventView>::empty());
    while i < events.len()
        invariant
            i <= events.len(),
            views == event_views(events@),
            event_views(ordered@) == head_updates(views.take(i as int)),
        decreases events.len() - i,
    {
        let ghost before = event_views(ordered@);
        proof {
            assert(views.take(i + 1).drop_last() =~= views.take(i as int));
            assert(views.take(i + 1).last() == views[i as int]);
        }
        if events[i].is_head_update() {
            let copy = events[i].clone();
            ordered.push(copy);
            assert(event_views(ordered@) =~= before.push(views[i as int]));
        }
        i += 1;
    }
    assert(views.take(events.len() as int) =~= views);
    let ghost heads = event_views(ordered@);
    i = 0;
    assert(heads + Seq::<EventView>::empty() =~= heads);
    while i < events.len()
        invariant
            i <= events.len(),
            views == event_views(events@),
            heads == head_updates(views),
            event_views(ordered@) == heads + without_head_updates(views.take(i as int)),
        decreases events.len() - i,
    {
        let ghost before = event_views(ordered@);
        proof {
            assert(views.take(i + 1).drop_last() =~= views.take(i as int));
            assert(views.take(i + 1).last() == views[i as int]);
        }
        if !events[i].is_head_update() {
            let copy = events[i].clone();
            ordered.push(copy);
            assert(event_views(ordered@) =~= before.push(views[i as int]));
            assert(before.push(views[i as int]) =~= heads + without_head_updates(
                views.take(i as int),
            ).push(views[i as int]));
        }
        i += 1;
    }
    assert(views.take(events.len() as int) =~= views);
    ordered
}

/// Whether `event` records that `HEAD` came to be: a `HEAD` update without an
/// old target. Its inverse would delete `HEAD`, which means nothing.
pub open spec fn is_head_creation(event: EventView) -> bool {
    event matches EventView::RefUpdate { ref_name, old_ref, .. } && ref_name == HEAD@ && old_ref is None
}

/// The inverses of `events`, the last event first, without the creations of
/// `HEAD`.
pub open spec fn inverses_in_reverse(
    events: Seq<EventView>,
    timestamp: Timestamp,
    event_tx_id: EventTransactionId,
) -> Seq<EventView>
    decreases events.len(),
{
    if events.len() == 0 {
        Seq::empty()
    } else if is_head_creation(events[0]) {
        inverses_in_reverse(events.drop_first(), timestamp, event_tx_id)
    } else {
        inverses_in_reverse(events.drop_first(), timestamp, event_tx_id).push(
            spec_inverse_event(events[0], timestamp, event_tx_id),
        )
    }
}

/// The events that undo `events`: their inverses, the last event first,
/// without the creations of `HEAD`; of the checkouts only the last; and the
/// checkout before everything else.
pub open spec fn spec_inverse_events(
    events: Seq<EventView>,
    timestamp: Timestamp,
    event_tx_id: EventTransactionId,
) -> Seq<EventView> {
    spec_checkouts_first(
        spec_optimize_inverse_events(inverses_in_reverse(events, timestamp, event_tx_id)),
    )
}

/// Whether `event` records that `HEAD` came to be.
fn creates_head(event: &Event) -> (creates: bool)
    ensures
        creates == is_head_creation(event@),
{
    match event {
        Event::RefUpdateEvent { ref_name, old_ref, .. } => old_ref.is_none() && str_equals(
            ref_name.as_str(),
            HEAD,
        ),
        _ => false,
    }
}

/// The events that bring the repository back to the cursor: the inverses of
/// the events since the cursor, recorded at `timestamp` in the transaction
/// `event_tx_id`, in the order in which they are to be applied.
pub fn inverse_events_since_cursor(
    replayer: &EventReplayer,
    cursor: EventCursor,
    timestamp: Timestamp,
    event_tx_id: EventTransactionId,
) -> (inverse_events: Vec<Event>)
    ensures
        event_views(inverse_events@) == spec_inverse_events(
            replayer@.skip(clamp(replayer@, cursor@) as int),
            timestamp,
            event_tx_id,
        ),
{
    let events = replayer.get_events_since_cursor(cursor);
    inverse_events(events, timestamp, event_tx_id)
}

/// The events that undo `events`, recorded at `timestamp` in the transaction
/// `event_tx_id`, in the order in which they are to be applied.
pub fn inverse_events(events: Vec<Event>, timestamp: Timestamp, event_tx_id: EventTransactionId) -> (inverse_events:
    Vec<Event>)
    ensures
        event_views(inverse_events@) == spec_inverse_events(
            event_views(events@),
            timestamp,
            event_tx_id,
        ),
{
    let ghost views = event_views(events@);
    let mut events = events;
    let mut inverses: Vec<Event> = Vec::new();
    assert(views.skip(views.len() as int) =~= Seq::<EventView>::empty());
    assert(event_views(inverses@) =~= Seq::<EventView>::empty());
    while events.len() > 0
        invariant
            events.len() <= views.len(),
            event_views(events@) == views.take(events.len() as int),
            event_views(inverses@) == inverses_in_reverse(
                views.skip(events.len() as int),
                timestamp,
                event_tx_id,
            ),
        decreases events.len(),
    {
        let ghost before = event_views(inverses@);
        let ghost at = events.len() - 1;
        let ghost held = events@;
        match events.pop() {
            Some(event) => {
                proof {
                    assert(event_views(held)[at] == held[at]@);
                    assert(views.take(held.len() as int)[at] == views[at]);
                    assert(event@ == views[at]);
                    assert(event_views(events@) =~= views.take(at));
                    assert(views.skip(at).drop_first() =~= views.skip(at + 1));
                    assert(views.skip(at)[0] == views[at]);
                }
                if !creates_head(&event) {
                    inverses.push(inverse_event(event, timestamp, event_tx_id));
                    assert(event_views(inverses@) =~= before.push(
                        spec_inverse_event(views[at], timestamp, event_tx_id),
                    ));
                }
            },
            None => {},
        }
    }
    assert(views.skip(0) =~= views);
    checkouts_first(optimize_inverse_events(inverses))
}

/// What is to be done with the repository to apply one inverse event.
#[derive(Debug, PartialEq, Eq)]
pub enum UndoAction {
    /// Check out `target`, detached. The check-out records its own events.
    Checkout { target: String },
    /// Nothing: the event says nothing.
    Skip,
    /// Delete the reference `ref_name`; if it does not exist, say so and go on.
    DeleteReference { ref_name: String },
    /// Create the reference `ref_name` or move it, so that it names `oid`.
    SetReference { ref_name: String, oid: Oid },
    /// Add the event to the log, in the transaction of the undo.
    RecordEvent { event: Event },
}

/// An undo action as a plain value.
pub enum UndoActionView {
    Checkout { target: Seq<char> },
    Skip,
    DeleteReference { ref_name: Seq<char> },
    SetReference { ref_name: Seq<char>, oid: Oid },
    RecordEvent { event: EventView },
}

impl View for UndoAction {
    type V = UndoActionView;

    open spec fn view(&self) -> UndoActionView {
        match *self {
            UndoAction::Checkout { target } => UndoActionView::Checkout { target: target@ },
            UndoAction::Skip => UndoActionView::Skip,
            UndoAction::DeleteReference { ref_name } => UndoActionView::DeleteReference {
                ref_name: ref_name@,
            },
            UndoAction::SetReference { ref_name, oid } => UndoActionView::SetReference {
                ref_name: ref_name@,
                oid,
            },
            UndoAction::RecordEvent { event } => UndoActionView::RecordEvent { event: event@ },
        }
    }
}

/// The message with which an undo moves a reference.
pub const UNDO_REFLOG_MESSAGE: &'static str = "branchless undo";

/// The action that applies the inverse event `event`. A `HEAD` update with a
/// new target is a check-out of that target. A reference update without any
/// target is skipped; one without a new target deletes the reference; any
/// other sets the reference to its new target, which has to be a commit
/// identifier. Every other event is added to the log.
pub open spec fn spec_undo_action(event: EventView) -> Result<UndoActionView, OidError> {
    match event {
        EventView::RefUpdate { ref_name, old_ref, new_ref, .. } => match new_ref {
            Some(target) => if ref_name == HEAD@ {
                Ok(UndoActionView::Checkout { target })
            } else {
                match spec_parse_oid(target) {
                    Ok(oid) => Ok(UndoActionView::SetReference { ref_name, oid }),
                    Err(error) => Err(error),
                }
            },
            None => if old_ref is None {
                Ok(UndoActionView::Skip)
            } else {
                Ok(UndoActionView::DeleteReference { ref_name })
            },
        },
        _ => Ok(UndoActionView::RecordEvent { event }),
    }
}

/// The action that applies the inverse event `event`; an error if the event
/// moves a reference to something that is no commit identifier.
pub fn undo_action(event: Event) -> (action: Result<UndoAction, OidError>)
    ensures
        match action {
            Ok(found) => spec_undo_action(event@) == Ok::<UndoActionView, OidError>(found@),
            Err(error) => spec_undo_action(event@) == Err::<UndoActionView, OidError>(error),
        },
{
    match event {
        Event::RefUpdateEvent { ref_name, old_ref, new_ref, .. } => {
            match new_ref {
                Some(target) => {
                    if str_equals(ref_name.as_str(), HEAD) {
                        Ok(UndoAction::Checkout { target })
                    } else {
                        match Oid::parse(target.as_str()) {
                            Ok(oid) => Ok(UndoAction::SetReference { ref_name, oid }),
                            Err(error) => Err(error),
                        }
                    }
                },
                None => {
                    if old_ref.is_none() {
                        Ok(UndoAction::Skip)
                    } else {
                        Ok(UndoAction::DeleteReference { ref_name })
                    }
                },
            }
        },
        other => Ok(UndoAction::RecordEvent { event: other }),
    }
}

/// Whether `answer`, a line that the user typed, confirms the undo: it does if
/// it is `y` or `Y`, with or without white space around it.
pub open spec fn spec_is_confirmed(answer: Seq<char>) -> bool {
    spec_trim(answer) == seq!['y'] || spec_trim(answer) == seq!['Y']
}

/// Whether `answer`, a line that the user typed, confirms the undo.
pub fn is_confirmed(answer: &str) -> (confirmed: bool)
    ensures
        confirmed == spec_is_confirmed(answer@),
{
    let chars = str_chars(answer);
    let (start, end) = trim_bounds(&chars);
    let ghost trimmed = chars@.subrange(start as int, end as int);
    if end - start == 1 {
        let only = chars[start];
        assert(trimmed =~= seq![only]);
        assert(seq![only] == seq!['y'] <==> only == 'y') by {
            assert(seq![only][0] == only);
            assert(seq!['y'][0] == 'y');
        }
        assert(seq![only] == seq!['Y'] <==> only == 'Y') by {
            assert(seq![only][0] == only);
            assert(seq!['Y'][0] == 'Y');
        }
        only == 'y' || only == 'Y'
    } else {
        assert(trimmed.len() != 1);
        assert(seq!['y'].len() == 1);
        assert(seq!['Y'].len() == 1);
        false
    }
}

/// How an undo ended, as the exit code of the command.
pub open spec fn spec_exit_code(has_inverse_events: bool, confirmed: bool) -> isize {
    if has_inverse_events && !confirmed {
        1
    } else {
        0
    }
}

/// The exit code of an undo: 1 if there was something to undo and the user did
/// not confirm, 0 else.
pub fn exit_code(has_inverse_events: bool, confirmed: bool) -> (code: isize)
    ensures
        code == spec_exit_code(has_inverse_events, confirmed),
{
    if has_inverse_events && !confirmed {
        1
    } else {
        0
    }
}

/// What is said when there is nothing to undo.
pub const NOTHING_TO_UNDO_MESSAGE: &'static str = "No undo actions to apply, exiting.";

/// What is said before the inverse events are listed.
pub const WILL_APPLY_MESSAGE: &'static str = "Will apply these actions:";

/// What the user is asked before anything is applied.
pub const CONFIRM_PROMPT: &'static str = "Confirm? [yN] ";

/// What is said when the user did not confirm.
pub const ABORTED_MESSAGE: &'static str = "Aborted.";

/// What is said after `count` inverse events have been applied.
pub open spec fn spec_applied_message(count: nat) -> Seq<char> {
    "Applied "@ + spec_decimal(count) + if count == 1 {
        " inverse event."@
    } else {
        " inverse events."@
    }
}

/// What is said after `count` inverse events have been applied.
pub fn applied_message(count: usize) -> (message: String)
    ensures
        message@ == spec_applied_message(count as nat),
{
    let mut out = str_chars("Applied ");
    push_decimal(&mut out, count as u64);
    let tail = if count == 1 {
        str_chars(" inverse event.")
    } else {
        str_chars(" inverse events.")
    };
    push_all(&mut out, &tail);
    chars_string(&out)
}

/// What is said when a reference that is to be deleted does not exist.
pub open spec fn spec_missing_reference_message(ref_name: Seq<char>) -> Seq<char> {
    "Reference "@ + ref_name + " did not exist, not deleting it."@
}

/// What is said when a reference that is to be deleted does not exist.
pub fn missing_reference_message(ref_name: &str) -> (message: String)
    ensures
        message@ == spec_missing_reference_message(ref_name@),
{
    let mut out = str_chars("Reference ");
    let name = str_chars(ref_name);
    push_all(&mut out, &name);
    let tail = str_chars(" did not exist, not deleting it.");
    push_all(&mut out, &tail);
    chars_string(&out)
}

} // verus!
