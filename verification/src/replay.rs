//! Replaying the event log: cursors into the log, and what the log says up to a
//! cursor.

use crate::event::{event_views, Event, EventTransactionId, EventView, HEAD};
use crate::oid::{spec_parse_oid, Oid};
use crate::lines::range_equals;
use crate::text::{str_chars, str_equals};
use vstd::prelude::*;

verus! {

/// A point in the log: the number of events that have happened. It never
/// changes; moving it gives a new cursor.
#[derive(Clone, Copy, Debug, PartialEq, Eq, Structural)]
pub struct EventCursor {
    event_id: usize,
}

impl View for EventCursor {
    type V = nat;

    closed spec fn view(&self) -> nat {
        self.event_id as nat
    }
}

impl EventCursor {
    /// The number of events before the cursor.
    pub fn event_id(&self) -> (event_id: usize)
        ensures
            event_id == self@,
    {
        self.event_id
    }
}

/// The event log, ready to be replayed up to any cursor.
pub struct EventReplayer {
    events: Vec<Event>,
}

impl View for EventReplayer {
    type V = Seq<EventView>;

    closed spec fn view(&self) -> Seq<EventView> {
        event_views(self.events@)
    }
}

/// `position`, brought into the log: no more than the number of events.
pub open spec fn clamp(log: Seq<EventView>, position: nat) -> nat {
    if position > log.len() {
        log.len()
    } else {
        position
    }
}

/// Whether a transaction ends at `position`: an event comes directly before, and
/// what comes after, if anything, belongs to another transaction.
pub open spec fn is_boundary(log: Seq<EventView>, position: int) -> bool {
    &&& 0 < position <= log.len()
    &&& position < log.len() ==> log[position - 1].event_tx_id() != log[position].event_tx_id()
}

/// The first transaction boundary after `position`; the end of the log if
/// `position` is there or beyond.
pub open spec fn next_boundary(log: Seq<EventView>, position: nat) -> nat
    decreases log.len() - position,
{
    if position >= log.len() {
        log.len()
    } else if is_boundary(log, position as int + 1) {
        position + 1
    } else {
        next_boundary(log, position + 1)
    }
}

/// The last transaction boundary before `position`; the start of the log if
/// there is none.
pub open spec fn previous_boundary(log: Seq<EventView>, position: nat) -> nat
    decreases position,
{
    if position <= 1 {
        0
    } else if is_boundary(log, position - 1) {
        (position - 1) as nat
    } else {
        previous_boundary(log, (position - 1) as nat)
    }
}

/// `position` moved by `delta` transaction boundaries: forward for a positive
/// `delta`, backward for a negative one, never leaving the log.
pub open spec fn spec_advance(log: Seq<EventView>, position: nat, delta: int) -> nat
    decreases
            if delta < 0 {
                -delta
            } else {
                delta
            },
{
    if delta == 0 {
        clamp(log, position)
    } else if delta > 0 {
        spec_advance(log, next_boundary(log, clamp(log, position)), delta - 1)
    } else {
        spec_advance(log, previous_boundary(log, clamp(log, position)), delta + 1)
    }
}

/// The position that `event_id` names: itself, or, if it is negative, that many
/// events before the end; never outside the log.
pub open spec fn spec_make_cursor(log: Seq<EventView>, event_id: int) -> nat {
    if event_id >= 0 {
        clamp(log, event_id as nat)
    } else if log.len() + event_id < 0 {
        0
    } else {
        (log.len() + event_id) as nat
    }
}

/// The last transaction boundary at or before `position`, or 0.
pub open spec fn boundary_at_or_before(log: Seq<EventView>, position: nat) -> nat {
    if is_boundary(log, clamp(log, position) as int) {
        clamp(log, position)
    } else {
        previous_boundary(log, clamp(log, position))
    }
}

/// The events of the last transaction that is complete at `position`, with its
/// identifier; nothing if no transaction is complete there.
pub open spec fn spec_tx_events_before(log: Seq<EventView>, position: nat) -> Option<
    (EventTransactionId, Seq<EventView>),
> {
    let end = boundary_at_or_before(log, position);
    if end == 0 {
        None
    } else {
        let start = previous_boundary(log, end);
        Some((log[start as int].event_tx_id(), log.subrange(start as int, end as int)))
    }
}

/// What the name of every branch starts with.
pub const BRANCH_PREFIX: &'static str = "refs/heads/";

/// What the log says of a commit.
#[derive(Clone, Copy, Debug, PartialEq, Eq, Structural)]
pub struct CommitState {
    /// The commit is not hidden.
    pub is_visible: bool,
    /// The commit was made by the user, not only seen.
    pub is_committed_by_user: bool,
}

/// The repository as the log describes it at some point.
pub struct RepoView {
    /// The commit that `HEAD` names, if any.
    pub head_oid: Option<Oid>,
    /// The target of each reference.
    pub refs: Map<Seq<char>, Seq<char>>,
    /// What is known of each commit that an event has named.
    pub commits: Map<Oid, CommitState>,
}

/// What is known of `oid` in `commits`; of a commit never named, that it is
/// neither visible nor the user's.
pub open spec fn commit_state(commits: Map<Oid, CommitState>, oid: Oid) -> CommitState {
    if commits.contains_key(oid) {
        commits[oid]
    } else {
        CommitState { is_visible: false, is_committed_by_user: false }
    }
}

/// The commit that the reference target `target` names, if it names one.
pub open spec fn target_oid(target: Option<Seq<char>>) -> Option<Oid> {
    match target {
        Some(text) => match spec_parse_oid(text) {
            Ok(oid) => Some(oid),
            Err(_) => None,
        },
        None => None,
    }
}

/// The repository before anything has happened.
pub open spec fn empty_view() -> RepoView {
    RepoView { head_oid: None, refs: Map::empty(), commits: Map::empty() }
}

/// The repository `view` after `event`.
pub open spec fn apply_event(view: RepoView, event: EventView) -> RepoView {
    match event {
        EventView::Commit { commit_oid, .. } => RepoView {
            commits: view.commits.insert(
                commit_oid,
                CommitState { is_visible: true, is_committed_by_user: true },
            ),
            ..view
        },
        EventView::Hide { commit_oid, .. } => RepoView {
            commits: view.commits.insert(
                commit_oid,
                CommitState { is_visible: false, ..commit_state(view.commits, commit_oid) },
            ),
            ..view
        },
        EventView::Unhide { commit_oid, .. } => RepoView {
            commits: view.commits.insert(
                commit_oid,
                CommitState { is_visible: true, ..commit_state(view.commits, commit_oid) },
            ),
            ..view
        },
        EventView::Rewrite { old_commit_oid, new_commit_oid, .. } => RepoView {
            commits: view.commits.insert(
                old_commit_oid,
                CommitState { is_visible: false, ..commit_state(view.commits, old_commit_oid) },
            ).insert(new_commit_oid, CommitState { is_visible: true, is_committed_by_user: true }),
            ..view
        },
        EventView::RefUpdate { ref_name, new_ref, .. } => RepoView {
            head_oid: if ref_name == HEAD@ {
                target_oid(new_ref)
            } else {
                view.head_oid
            },
            refs: match new_ref {
                Some(target) => view.refs.insert(ref_name, target),
                None => view.refs.remove(ref_name),
            },
            ..view
        },
    }
}

/// The repository after the events of `log`, from the first to the last.
pub open spec fn replay(log: Seq<EventView>) -> RepoView
    decreases log.len(),
{
    if log.len() == 0 {
        empty_view()
    } else {
        apply_event(replay(log.drop_last()), log.last())
    }
}

/// The repository at `position` in `log`: after the events before it.
pub open spec fn view_at(log: Seq<EventView>, position: nat) -> RepoView {
    replay(log.take(clamp(log, position) as int))
}

/// The commits that `event` names.
pub open spec fn event_oids(event: EventView) -> Seq<Oid> {
    match event {
        EventView::Commit { commit_oid, .. } => seq![commit_oid],
        EventView::Hide { commit_oid, .. } => seq![commit_oid],
        EventView::Unhide { commit_oid, .. } => seq![commit_oid],
        EventView::Rewrite { old_commit_oid, new_commit_oid, .. } => seq![
            old_commit_oid,
            new_commit_oid,
        ],
        EventView::RefUpdate { .. } => Seq::empty(),
    }
}

/// `items` with `item` at the end, unless it is there already.
pub open spec fn with_new<T>(items: Seq<T>, item: T) -> Seq<T> {
    if items.contains(item) {
        items
    } else {
        items.push(item)
    }
}

/// `items` with each of `more` at the end that is not there already.
pub open spec fn with_all_new<T>(items: Seq<T>, more: Seq<T>) -> Seq<T>
    decreases more.len(),
{
    if more.len() == 0 {
        items
    } else {
        with_new(with_all_new(items, more.drop_last()), more.last())
    }
}

/// The commits that the events of `log` name, each once, in the order in which
/// they are first named.
pub open spec fn named_oids(log: Seq<EventView>) -> Seq<Oid>
    decreases log.len(),
{
    if log.len() == 0 {
        Seq::empty()
    } else {
        with_all_new(named_oids(log.drop_last()), event_oids(log.last()))
    }
}

/// Those of `oids` that are visible in `commits`, in order.
pub open spec fn visible_among(oids: Seq<Oid>, commits: Map<Oid, CommitState>) -> Seq<Oid>
    decreases oids.len(),
{
    if oids.len() == 0 {
        Seq::empty()
    } else if commit_state(commits, oids.last()).is_visible {
        visible_among(oids.drop_last(), commits).push(oids.last())
    } else {
        visible_among(oids.drop_last(), commits)
    }
}

/// The commits that are visible after the events of `log`, each once, in the
/// order in which the log first names them.
pub open spec fn active_oids(log: Seq<EventView>) -> Seq<Oid> {
    visible_among(named_oids(log), replay(log).commits)
}

/// The references that the events of `log` name, each once, in the order in
/// which they are first named.
pub open spec fn named_refs(log: Seq<EventView>) -> Seq<Seq<char>>
    decreases log.len(),
{
    if log.len() == 0 {
        Seq::empty()
    } else {
        match log.last() {
            EventView::RefUpdate { ref_name, .. } => with_new(
                named_refs(log.drop_last()),
                ref_name,
            ),
            _ => named_refs(log.drop_last()),
        }
    }
}

/// Whether `ref_name` names a branch: it starts with `refs/heads/`.
pub open spec fn is_branch_name(ref_name: Seq<char>) -> bool {
    ref_name.len() >= BRANCH_PREFIX@.len() && ref_name.take(BRANCH_PREFIX@.len() as int)
        == BRANCH_PREFIX@
}

/// The branch that `ref_name` is in `refs`, with the commit it names: nothing
/// if the reference is not there, is no branch, or names no commit.
pub open spec fn branch_of(refs: Map<Seq<char>, Seq<char>>, ref_name: Seq<char>) -> Option<
    (Oid, Seq<char>),
> {
    if refs.contains_key(ref_name) && is_branch_name(ref_name) {
        match target_oid(Some(refs[ref_name])) {
            Some(oid) => Some((oid, ref_name)),
            None => None,
        }
    } else {
        None
    }
}

/// The branches among `names` in `refs`, each with the commit it names, in
/// order.
pub open spec fn branches_among(names: Seq<Seq<char>>, refs: Map<Seq<char>, Seq<char>>) -> Seq<
    (Oid, Seq<char>),
>
    decreases names.len(),
{
    if names.len() == 0 {
        Seq::empty()
    } else {
        match branch_of(refs, names.last()) {
            Some(branch) => branches_among(names.drop_last(), refs).push(branch),
            None => branches_among(names.drop_last(), refs),
        }
    }
}

/// The branches after the events of `log`, each with the commit it names, in
/// the order in which the log first names them.
pub open spec fn branch_oids(log: Seq<EventView>) -> Seq<(Oid, Seq<char>)> {
    branches_among(named_refs(log), replay(log).refs)
}

/// What a sequence holds after an item was put at its end.
pub proof fn lemma_push_contains<T>(items: Seq<T>, item: T, x: T)
    ensures
        items.push(item).contains(x) <==> items.contains(x) || x == item,
{
    let longer = items.push(item);
    if longer.contains(x) {
        let i = choose|i: int| 0 <= i < longer.len() && longer[i] == x;
        if i < items.len() {
            assert(items[i] == x);
        }
    }
    if items.contains(x) {
        let i = choose|i: int| 0 <= i < items.len() && items[i] == x;
        assert(longer[i] == x);
    }
    assert(longer[items.len() as int] == item);
}

/// A sequence without its last item holds what it held, but for that item.
pub proof fn lemma_drop_last_contains<T>(items: Seq<T>, x: T)
    requires
        items.len() > 0,
    ensures
        items.contains(x) <==> items.drop_last().contains(x) || x == items.last(),
{
    assert(items =~= items.drop_last().push(items.last()));
    lemma_push_contains(items.drop_last(), items.last(), x);
}

/// What `with_new` holds: what was there, and the item.
pub proof fn lemma_with_new<T>(items: Seq<T>, item: T, x: T)
    ensures
        with_new(items, item).contains(x) <==> items.contains(x) || x == item,
{
    lemma_push_contains(items, item, x);
}

/// `with_new` puts nothing in twice.
pub proof fn lemma_with_new_distinct<T>(items: Seq<T>, item: T)
    requires
        items.no_duplicates(),
    ensures
        with_new(items, item).no_duplicates(),
{
    if !items.contains(item) {
        let longer = items.push(item);
        assert forall|i: int, j: int| 0 <= i < longer.len() && 0 <= j < longer.len() && i != j implies longer[i]
            != longer[j] by {
            if i < items.len() && j < items.len() {
                assert(items[i] != items[j]);
            } else if i < items.len() {
                assert(items[i] == longer[i]);
            } else {
                assert(items[j] == longer[j]);
            }
        }
    }
}

/// What `with_all_new` holds: what was there, and the new items.
pub proof fn lemma_with_all_new<T>(items: Seq<T>, more: Seq<T>, x: T)
    ensures
        with_all_new(items, more).contains(x) <==> items.contains(x) || more.contains(x),
    decreases more.len(),
{
    if more.len() > 0 {
        lemma_with_all_new(items, more.drop_last(), x);
        lemma_with_new(with_all_new(items, more.drop_last()), more.last(), x);
        lemma_drop_last_contains(more, x);
    } else {
        assert(!more.contains(x));
    }
}

/// `with_all_new` puts nothing in twice.
pub proof fn lemma_with_all_new_distinct<T>(items: Seq<T>, more: Seq<T>)
    requires
        items.no_duplicates(),
    ensures
        with_all_new(items, more).no_duplicates(),
    decreases more.len(),
{
    if more.len() > 0 {
        lemma_with_all_new_distinct(items, more.drop_last());
        lemma_with_new_distinct(with_all_new(items, more.drop_last()), more.last());
    }
}

/// A commit of which the log says something is named in the log.
pub proof fn lemma_known_commit_is_named(log: Seq<EventView>, oid: Oid)
    requires
        replay(log).commits.contains_key(oid),
    ensures
        named_oids(log).contains(oid),
    decreases log.len(),
{
    if log.len() > 0 {
        let init = log.drop_last();
        let named = event_oids(log.last());
        lemma_with_all_new(named_oids(init), named, oid);
        if replay(init).commits.contains_key(oid) {
            lemma_known_commit_is_named(init, oid);
        } else {
            match log.last() {
                EventView::Commit { commit_oid, .. } => {
                    assert(named[0] == commit_oid);
                },
                EventView::Hide { commit_oid, .. } => {
                    assert(named[0] == commit_oid);
                },
                EventView::Unhide { commit_oid, .. } => {
                    assert(named[0] == commit_oid);
                },
                EventView::Rewrite { old_commit_oid, new_commit_oid, .. } => {
                    assert(named[0] == old_commit_oid);
                    assert(named[1] == new_commit_oid);
                },
                EventView::RefUpdate { .. } => {},
            }
        }
    }
}

/// No commit is named twice.
pub proof fn lemma_named_oids_distinct(log: Seq<EventView>)
    ensures
        named_oids(log).no_duplicates(),
    decreases log.len(),
{
    if log.len() > 0 {
        lemma_named_oids_distinct(log.drop_last());
        lemma_with_all_new_distinct(named_oids(log.drop_last()), event_oids(log.last()));
    }
}

/// What `visible_among` holds: the visible ones of the given commits.
pub proof fn lemma_visible_among(oids: Seq<Oid>, commits: Map<Oid, CommitState>, oid: Oid)
    ensures
        visible_among(oids, commits).contains(oid) <==> oids.contains(oid) && commit_state(
            commits,
            oid,
        ).is_visible,
    decreases oids.len(),
{
    if oids.len() > 0 {
        let init = oids.drop_last();
        lemma_visible_among(init, commits, oid);
        lemma_drop_last_contains(oids, oid);
        lemma_push_contains(visible_among(init, commits), oids.last(), oid);
    } else {
        assert(!oids.contains(oid));
        assert(!visible_among(oids, commits).contains(oid));
    }
}

/// `visible_among` holds nothing twice that was not given twice.
pub proof fn lemma_visible_among_distinct(oids: Seq<Oid>, commits: Map<Oid, CommitState>)
    requires
        oids.no_duplicates(),
    ensures
        visible_among(oids, commits).no_duplicates(),
    decreases oids.len(),
{
    if oids.len() > 0 {
        let init = oids.drop_last();
        let last = oids.last();
        assert(init.no_duplicates());
        lemma_visible_among_distinct(init, commits);
        lemma_visible_among(init, commits, last);
        if init.contains(last) {
            let j = choose|j: int| 0 <= j < init.len() && init[j] == last;
            assert(oids[j] == oids[oids.len() - 1]);
        }
        let kept = visible_among(init, commits);
        assert(!kept.contains(last));
        assert(with_new(kept, last) == kept.push(last));
        lemma_with_new_distinct(kept, last);
    }
}

/// The active commits are the visible commits, each once.
pub proof fn lemma_active_oids(log: Seq<EventView>)
    ensures
        forall|oid: Oid|
            active_oids(log).contains(oid) <==> commit_state(replay(log).commits, oid).is_visible,
        active_oids(log).no_duplicates(),
{
    assert forall|oid: Oid|
        active_oids(log).contains(oid) <==> commit_state(
            replay(log).commits,
            oid,
        ).is_visible by {
        lemma_visible_among(named_oids(log), replay(log).commits, oid);
        if commit_state(replay(log).commits, oid).is_visible {
            lemma_known_commit_is_named(log, oid);
        }
    }
    lemma_named_oids_distinct(log);
    lemma_visible_among_distinct(named_oids(log), replay(log).commits);
}

/// The next boundary lies after the position, is a boundary, and no boundary
/// lies between; at the end of the log it is the end.
pub proof fn lemma_next_boundary(log: Seq<EventView>, position: nat)
    ensures
        next_boundary(log, position) <= log.len() || position > log.len(),
        position < log.len() ==> position < next_boundary(log, position) <= log.len(),
        position < log.len() ==> is_boundary(log, next_boundary(log, position) as int),
        forall|p: int| position < p < next_boundary(log, position) ==> !is_boundary(log, p),
        position >= log.len() ==> next_boundary(log, position) == log.len(),
    decreases log.len() - position,
{
    if position < log.len() && !is_boundary(log, position as int + 1) {
        lemma_next_boundary(log, position + 1);
    }
}

/// The previous boundary lies before the position, is a boundary or the start,
/// and no boundary lies between.
pub proof fn lemma_previous_boundary(log: Seq<EventView>, position: nat)
    ensures
        previous_boundary(log, position) <= position,
        position > 0 ==> previous_boundary(log, position) < position,
        previous_boundary(log, position) > 0 ==> is_boundary(
            log,
            previous_boundary(log, position) as int,
        ),
        forall|p: int| previous_boundary(log, position) < p < position ==> !is_boundary(log, p),
    decreases position,
{
    if position > 1 && !is_boundary(log, position - 1) {
        lemma_previous_boundary(log, (position - 1) as nat);
    }
}

/// At the end of the log, moving forward stays.
pub proof fn lemma_advance_at_end(log: Seq<EventView>, position: nat, delta: int)
    requires
        delta >= 0,
        delta == 0 || position >= log.len(),
    ensures
        spec_advance(log, position, delta) == clamp(log, position),
    decreases delta,
{
    if delta > 0 {
        lemma_advance_at_end(log, log.len(), delta - 1);
    }
}

/// At the start of the log, moving backward stays.
pub proof fn lemma_advance_at_start(log: Seq<EventView>, delta: int)
    requires
        delta <= 0,
    ensures
        spec_advance(log, 0, delta) == 0,
    decreases -delta,
{
    if delta < 0 {
        lemma_advance_at_start(log, delta + 1);
    }
}

/// Moving never leaves the log.
pub proof fn lemma_advance_in_log(log: Seq<EventView>, position: nat, delta: int)
    ensures
        spec_advance(log, position, delta) <= log.len(),
    decreases
            if delta < 0 {
                -delta
            } else {
                delta
            },
{
    let here = clamp(log, position);
    if delta > 0 {
        lemma_advance_in_log(log, next_boundary(log, here), delta - 1);
    } else if delta < 0 {
        lemma_advance_in_log(log, previous_boundary(log, here), delta + 1);
    }
}

/// One transaction forward and one back is where the cursor was, when the
/// cursor stands on a transaction boundary, or at the start of the log, and not
/// yet at the end.
pub proof fn lemma_forward_then_back(log: Seq<EventView>, position: nat)
    requires
        position < log.len(),
        position == 0 || is_boundary(log, position as int),
    ensures
        spec_advance(log, spec_advance(log, position, 1), -1) == position,
{
    reveal_with_fuel(spec_advance, 2);
    lemma_next_boundary(log, position);
    let next = next_boundary(log, position);
    lemma_previous_boundary(log, next);
    let back = previous_boundary(log, next);
    assert(spec_advance(log, position, 1) == next);
    assert(spec_advance(log, next, -1) == back);
    if back < position {
        assert(!is_boundary(log, position as int));
    } else if back > position {
        assert(is_boundary(log, back as int));
    }
}

/// Before anything has happened, no transaction is complete.
pub proof fn lemma_nothing_before_start(log: Seq<EventView>)
    ensures
        spec_tx_events_before(log, 0) is None,
{
}

impl EventReplayer {
    /// A replayer of `events`, the whole log in the order of recording.
    pub fn from_events(events: Vec<Event>) -> (replayer: EventReplayer)
        ensures
            replayer@ == event_views(events@),
    {
        EventReplayer { events }
    }

    /// The number of events in the log.
    pub fn num_events(&self) -> (count: usize)
        ensures
            count == self@.len(),
    {
        self.events.len()
    }

    /// The cursor at the present: after every event.
    pub fn make_default_cursor(&self) -> (cursor: EventCursor)
        ensures
            cursor@ == self@.len(),
    {
        EventCursor { event_id: self.events.len() }
    }

    /// The cursor after `event_id` events or, for a negative `event_id`, that
    /// many events before the present; a position outside the log is brought
    /// to its nearer end.
    pub fn make_cursor(&self, event_id: isize) -> (cursor: EventCursor)
        ensures
            cursor@ == spec_make_cursor(self@, event_id as int),
            cursor@ <= self@.len(),
    {
        let count = self.events.len();
        if event_id >= 0 {
            let wanted = event_id as usize;
            if wanted > count {
                EventCursor { event_id: count }
            } else {
                EventCursor { event_id: wanted }
            }
        } else {
            let back: usize = if event_id == isize::MIN {
                (isize::MAX as usize) + 1
            } else {
                (-event_id) as usize
            };
            if back > count {
                EventCursor { event_id: 0 }
            } else {
                EventCursor { event_id: count - back }
            }
        }
    }

    /// Whether a transaction ends at `position`.
    fn transaction_ends_at(&self, position: usize) -> (ends: bool)
        ensures
            ends == is_boundary(self@, position as int),
    {
        let count = self.events.len();
        if position == 0 || position > count {
            false
        } else if position == count {
            true
        } else {
            let before = self.events[position - 1].get_event_tx_id();
            let after = self.events[position].get_event_tx_id();
            before.0 != after.0
        }
    }

    /// The first transaction boundary after `position`.
    fn next_boundary(&self, position: usize) -> (next: usize)
        requires
            position <= self@.len(),
        ensures
            next == next_boundary(self@, position as nat),
            next <= self@.len(),
    {
        let count = self.events.len();
        let mut next = position;
        while next < count
            invariant
                position <= next <= count,
                count == self@.len(),
                next_boundary(self@, next as nat) == next_boundary(self@, position as nat),
            decreases count - next,
        {
            if self.transaction_ends_at(next + 1) {
                return next + 1;
            }
            next += 1;
        }
        next
    }

    /// The last transaction boundary before `position`.
    fn previous_boundary(&self, position: usize) -> (previous: usize)
        requires
            position <= self@.len(),
        ensures
            previous == previous_boundary(self@, position as nat),
            previous <= position,
    {
        let mut previous = position;
        while previous > 1
            invariant
                previous <= position <= self@.len(),
                previous_boundary(self@, previous as nat) == previous_boundary(
                    self@,
                    position as nat,
                ),
            decreases previous,
        {
            if self.transaction_ends_at(previous - 1) {
                return previous - 1;
            }
            previous -= 1;
        }
        0
    }

    /// The cursor moved by `num_transactions` transaction boundaries: forward
    /// for a positive number, backward for a negative one. It stops at the
    /// present and at the start of the log.
    pub fn advance_cursor_by_transaction(&self, cursor: EventCursor, num_transactions: isize) -> (moved:
        EventCursor)
        ensures
            moved@ == spec_advance(self@, cursor@, num_transactions as int),
            moved@ <= self@.len(),
    {
        let count = self.events.len();
        let mut position = if cursor.event_id > count {
            count
        } else {
            cursor.event_id
        };
        let mut left = num_transactions;
        if left >= 0 {
            while left > 0 && position < count
                invariant
                    position <= count,
                    count == self@.len(),
                    left >= 0,
                    spec_advance(self@, position as nat, left as int) == spec_advance(
                        self@,
                        cursor@,
                        num_transactions as int,
                    ),
                decreases left,
            {
                position = self.next_boundary(position);
                left -= 1;
            }
            proof {
                lemma_advance_at_end(self@, position as nat, left as int);
            }
        } else {
            while left < 0 && position > 0
                invariant
                    position <= count,
                    count == self@.len(),
                    left <= 0,
                    spec_advance(self@, position as nat, left as int) == spec_advance(
                        self@,
                        cursor@,
                        num_transactions as int,
                    ),
                decreases -left,
            {
                position = self.previous_boundary(position);
                left += 1;
            }
            proof {
                lemma_advance_at_start(self@, left as int);
            }
        }
        EventCursor { event_id: position }
    }

    /// The events after the cursor: what has happened since.
    pub fn get_events_since_cursor(&self, cursor: EventCursor) -> (events: Vec<Event>)
        ensures
            event_views(events@) == self@.skip(clamp(self@, cursor@) as int),
    {
        let count = self.events.len();
        let start = if cursor.event_id > count {
            count
        } else {
            cursor.event_id
        };
        self.copy_range(start, count)
    }

    /// Copies of the events from `start` up to `end`.
    fn copy_range(&self, start: usize, end: usize) -> (events: Vec<Event>)
        requires
            start <= end <= self@.len(),
        ensures
            event_views(events@) == self@.subrange(start as int, end as int),
    {
        let mut events: Vec<Event> = Vec::new();
        let mut i = start;
        assert(event_views(events@) =~= self@.subrange(start as int, start as int));
        while i < end
            invariant
                start <= i <= end <= self@.len(),
                event_views(events@) == self@.subrange(start as int, i as int),
            decreases end - i,
        {
            let ghost before = event_views(events@);
            let copy = self.events[i].clone();
            events.push(copy);
            i += 1;
            assert(event_views(events@) =~= before.push(self@[i - 1]));
            assert(before.push(self@[i - 1]) =~= self@.subrange(start as int, i as int));
        }
        events
    }

    /// The events of the last transaction that is complete at the cursor, and
    /// the identifier of that transaction. Nothing at the start of the log.
    pub fn get_tx_events_before_cursor(&self, cursor: EventCursor) -> (found: Option<
        (EventTransactionId, Vec<Event>),
    >)
        ensures
            match found {
                Some((event_tx_id, events)) => spec_tx_events_before(self@, cursor@) == Some(
                    (event_tx_id, event_views(events@)),
                ),
                None => spec_tx_events_before(self@, cursor@) is None,
            },
    {
        let count = self.events.len();
        let position = if cursor.event_id > count {
            count
        } else {
            cursor.event_id
        };
        let end = if self.transaction_ends_at(position) {
            position
        } else {
            self.previous_boundary(position)
        };
        if end == 0 {
            return None;
        }
        let start = self.previous_boundary(end);
        proof {
            lemma_previous_boundary(self@, end as nat);
        }
        let event_tx_id = self.events[start].get_event_tx_id();
        let events = self.copy_range(start, end);
        Some((event_tx_id, events))
    }

    /// The number of events up to the end of the last transaction that is
    /// complete at the cursor: the number of the last event of that
    /// transaction, counting from 1; 0 if no transaction is complete.
    pub fn get_event_id_before_cursor(&self, cursor: EventCursor) -> (event_id: usize)
        ensures
            event_id == boundary_at_or_before(self@, cursor@),
    {
        let position = self.clamped(cursor);
        if self.transaction_ends_at(position) {
            position
        } else {
            self.previous_boundary(position)
        }
    }

    /// The position of the cursor, brought into the log.
    fn clamped(&self, cursor: EventCursor) -> (position: usize)
        ensures
            position == clamp(self@, cursor@),
    {
        if cursor.event_id > self.events.len() {
            self.events.len()
        } else {
            cursor.event_id
        }
    }

    /// The commit that `HEAD` named at the cursor; none if `HEAD` was never
    /// set, or was last set to something that is no commit identifier.
    pub fn get_cursor_head_oid(&self, cursor: EventCursor) -> (head_oid: Option<Oid>)
        ensures
            head_oid == view_at(self@, cursor@).head_oid,
    {
        let end = self.clamped(cursor);
        let mut head_oid: Option<Oid> = None;
        let mut i: usize = 0;
        while i < end
            invariant
                i <= end <= self@.len(),
                head_oid == replay(self@.take(i as int)).head_oid,
            decreases end - i,
        {
            proof {
                assert(self@.take(i + 1).drop_last() =~= self@.take(i as int));
                assert(self@.take(i + 1).last() == self.events[i as int]@);
            }
            match &self.events[i] {
                Event::RefUpdateEvent { ref_name, new_ref, .. } => {
                    if str_equals(ref_name.as_str(), HEAD) {
                        head_oid = parse_target(new_ref);
                    }
                },
                _ => {},
            }
            i += 1;
        }
        head_oid
    }

    /// The target of the reference `ref_name` at the cursor, if the reference
    /// existed then.
    pub fn get_cursor_ref(&self, cursor: EventCursor, ref_name: &str) -> (target: Option<String>)
        ensures
            match target {
                Some(text) => view_at(self@, cursor@).refs.contains_key(ref_name@) && view_at(
                    self@,
                    cursor@,
                ).refs[ref_name@] == text@,
                None => !view_at(self@, cursor@).refs.contains_key(ref_name@),
            },
    {
        let end = self.clamped(cursor);
        let mut target: Option<String> = None;
        let mut i: usize = 0;
        while i < end
            invariant
                i <= end <= self@.len(),
                match target {
                    Some(text) => replay(self@.take(i as int)).refs.contains_key(ref_name@)
                        && replay(self@.take(i as int)).refs[ref_name@] == text@,
                    None => !replay(self@.take(i as int)).refs.contains_key(ref_name@),
                },
            decreases end - i,
        {
            proof {
                assert(self@.take(i + 1).drop_last() =~= self@.take(i as int));
                assert(self@.take(i + 1).last() == self.events[i as int]@);
            }
            match &self.events[i] {
                Event::RefUpdateEvent { ref_name: name, new_ref, .. } => {
                    if str_equals(name.as_str(), ref_name) {
                        target = match new_ref {
                            Some(text) => Some(text.clone()),
                            None => None,
                        };
                    }
                },
                _ => {},
            }
            i += 1;
        }
        target
    }

    /// The commit that the main branch `main_ref_name` named at the cursor, as
    /// far as the log knows: none if the log never saw the reference, saw it
    /// deleted, or saw it set to something that is no commit identifier.
    pub fn get_cursor_main_branch_oid(&self, cursor: EventCursor, main_ref_name: &str) -> (oid:
        Option<Oid>)
        ensures
            oid == if view_at(self@, cursor@).refs.contains_key(main_ref_name@) {
                target_oid(Some(view_at(self@, cursor@).refs[main_ref_name@]))
            } else {
                None
            },
    {
        let target = self.get_cursor_ref(cursor, main_ref_name);
        parse_target(&target)
    }

    /// What the log says of the commit `oid` at the cursor.
    pub fn get_cursor_commit_state(&self, cursor: EventCursor, oid: Oid) -> (state: CommitState)
        ensures
            state == commit_state(view_at(self@, cursor@).commits, oid),
    {
        let end = self.clamped(cursor);
        let mut state = CommitState { is_visible: false, is_committed_by_user: false };
        let mut i: usize = 0;
        while i < end
            invariant
                i <= end <= self@.len(),
                state == commit_state(replay(self@.take(i as int)).commits, oid),
            decreases end - i,
        {
            proof {
                assert(self@.take(i + 1).drop_last() =~= self@.take(i as int));
                assert(self@.take(i + 1).last() == self.events[i as int]@);
            }
            match &self.events[i] {
                Event::CommitEvent { commit_oid, .. } => {
                    if *commit_oid == oid {
                        state = CommitState { is_visible: true, is_committed_by_user: true };
                    }
                },
                Event::HideEvent { commit_oid, .. } => {
                    if *commit_oid == oid {
                        state = CommitState { is_visible: false, ..state };
                    }
                },
                Event::UnhideEvent { commit_oid, .. } => {
                    if *commit_oid == oid {
                        state = CommitState { is_visible: true, ..state };
                    }
                },
                Event::RewriteEvent { old_commit_oid, new_commit_oid, .. } => {
                    if *old_commit_oid == oid {
                        state = CommitState { is_visible: false, ..state };
                    }
                    if *new_commit_oid == oid {
                        state = CommitState { is_visible: true, is_committed_by_user: true };
                    }
                },
                Event::RefUpdateEvent { .. } => {},
            }
            i += 1;
        }
        state
    }
    /// The commits that are visible at the cursor, each once, in the order in
    /// which the log first names them.
    pub fn get_cursor_active_oids(&self, cursor: EventCursor) -> (oids: Vec<Oid>)
        ensures
            oids@ == active_oids(self@.take(clamp(self@, cursor@) as int)),
    {
        let end = self.clamped(cursor);
        let ghost log = self@.take(end as int);
        let mut named: Vec<Oid> = Vec::new();
        let mut i: usize = 0;
        assert(log.take(0) =~= Seq::<EventView>::empty());
        while i < end
            invariant
                i <= end <= self@.len(),
                log == self@.take(end as int),
                named@ == named_oids(log.take(i as int)),
            decreases end - i,
        {
            proof {
                assert(log.take(i + 1).drop_last() =~= log.take(i as int));
                assert(log.take(i + 1).last() == self.events[i as int]@);
                reveal_with_fuel(with_all_new, 3);
            }
            let ghost before = named@;
            match &self.events[i] {
                Event::CommitEvent { commit_oid, .. } => {
                    assert(event_oids(self.events[i as int]@) =~= seq![*commit_oid]);
                    assert(seq![*commit_oid].drop_last() =~= Seq::<Oid>::empty());
                    push_new_oid(&mut named, *commit_oid);
                },
                Event::HideEvent { commit_oid, .. } => {
                    assert(event_oids(self.events[i as int]@) =~= seq![*commit_oid]);
                    assert(seq![*commit_oid].drop_last() =~= Seq::<Oid>::empty());
                    push_new_oid(&mut named, *commit_oid);
                },
                Event::UnhideEvent { commit_oid, .. } => {
                    assert(event_oids(self.events[i as int]@) =~= seq![*commit_oid]);
                    assert(seq![*commit_oid].drop_last() =~= Seq::<Oid>::empty());
                    push_new_oid(&mut named, *commit_oid);
                },
                Event::RewriteEvent { old_commit_oid, new_commit_oid, .. } => {
                    let ghost both = seq![*old_commit_oid, *new_commit_oid];
                    assert(event_oids(self.events[i as int]@) =~= both);
                    assert(both.drop_last() =~= seq![*old_commit_oid]);
                    assert(seq![*old_commit_oid].drop_last() =~= Seq::<Oid>::empty());
                    push_new_oid(&mut named, *old_commit_oid);
                    push_new_oid(&mut named, *new_commit_oid);
                },
                Event::RefUpdateEvent { .. } => {
                    assert(event_oids(self.events[i as int]@) =~= Seq::<Oid>::empty());
                },
            }
            i += 1;
        }
        assert(log.take(end as int) =~= log);
        let mut oids: Vec<Oid> = Vec::new();
        let mut k: usize = 0;
        assert(named@.take(0) =~= Seq::<Oid>::empty());
        while k < named.len()
            invariant
                k <= named.len(),
                end == clamp(self@, cursor@),
                log == self@.take(end as int),
                oids@ == visible_among(named@.take(k as int), replay(log).commits),
            decreases named.len() - k,
        {
            proof {
                assert(named@.take(k + 1).drop_last() =~= named@.take(k as int));
                assert(named@.take(k + 1).last() == named@[k as int]);
            }
            if self.get_cursor_commit_state(cursor, named[k]).is_visible {
                oids.push(named[k]);
            }
            k += 1;
        }
        assert(named@.take(named.len() as int) =~= named@);
        oids
    }

    /// The branches at the cursor, each with the commit it names, in the order
    /// in which the log first names them. A branch is a reference under
    /// `refs/heads/`; one that names no commit is left out.
    pub fn get_cursor_branch_oid_to_names(&self, cursor: EventCursor) -> (branches: Vec<
        (Oid, String),
    >)
        ensures
            branch_views(branches@) == branch_oids(self@.take(clamp(self@, cursor@) as int)),
    {
        let end = self.clamped(cursor);
        let ghost log = self@.take(end as int);
        let mut names: Vec<String> = Vec::new();
        let mut i: usize = 0;
        assert(log.take(0) =~= Seq::<EventView>::empty());
        assert(name_views(names@) =~= Seq::<Seq<char>>::empty());
        while i < end
            invariant
                i <= end <= self@.len(),
                log == self@.take(end as int),
                name_views(names@) == named_refs(log.take(i as int)),
            decreases end - i,
        {
            proof {
                assert(log.take(i + 1).drop_last() =~= log.take(i as int));
                assert(log.take(i + 1).last() == self.events[i as int]@);
            }
            match &self.events[i] {
                Event::RefUpdateEvent { ref_name, .. } => {
                    push_new_name(&mut names, ref_name);
                },
                _ => {},
            }
            i += 1;
        }
        assert(log.take(end as int) =~= log);
        let prefix = str_chars(BRANCH_PREFIX);
        let mut branches: Vec<(Oid, String)> = Vec::new();
        let mut k: usize = 0;
        assert(name_views(names@).take(0) =~= Seq::<Seq<char>>::empty());
        assert(branch_views(branches@) =~= Seq::<(Oid, Seq<char>)>::empty());
        while k < names.len()
            invariant
                k <= names.len(),
                prefix@ == BRANCH_PREFIX@,
                end == clamp(self@, cursor@),
                log == self@.take(end as int),
                branch_views(branches@) == branches_among(
                    name_views(names@).take(k as int),
                    replay(log).refs,
                ),
            decreases names.len() - k,
        {
            let ghost before = branch_views(branches@);
            let ghost all = name_views(names@);
            proof {
                assert(all.take(k + 1).drop_last() =~= all.take(k as int));
                assert(all.take(k + 1).last() == names@[k as int]@);
            }
            let name = &names[k];
            let chars = str_chars(name.as_str());
            let is_branch = chars.len() >= prefix.len() && range_equals(
                &chars,
                0,
                prefix.len(),
                &prefix,
            );
            proof {
                if chars.len() >= prefix.len() {
                    assert(chars@.subrange(0, prefix.len() as int) =~= chars@.take(
                        prefix.len() as int,
                    ));
                }
            }
            if is_branch {
                let target = self.get_cursor_ref(cursor, name.as_str());
                match parse_target(&target) {
                    Some(oid) => {
                        branches.push((oid, name.clone()));
                        assert(branch_views(branches@) =~= before.push((oid, name@)));
                    },
                    None => {},
                }
            }
            k += 1;
        }
        assert(name_views(names@).take(names.len() as int) =~= name_views(names@));
        branches
    }
}

/// The strings of `names`, each by its characters.
pub open spec fn name_views(names: Seq<String>) -> Seq<Seq<char>> {
    names.map_values(|name: String| name@)
}

/// The branches of `branches`, with the names by their characters.
pub open spec fn branch_views(branches: Seq<(Oid, String)>) -> Seq<(Oid, Seq<char>)> {
    branches.map_values(|branch: (Oid, String)| (branch.0, branch.1@))
}

/// Adds `oid` to `oids`, unless it is there already.
pub(crate) fn push_new_oid(oids: &mut Vec<Oid>, oid: Oid)
    ensures
        final(oids)@ == with_new(old(oids)@, oid),
{
    let mut i: usize = 0;
    while i < oids.len()
        invariant
            i <= oids.len(),
            oids@ == old(oids)@,
            forall|k: int| 0 <= k < i ==> oids@[k] != oid,
        decreases oids.len() - i,
    {
        if oids[i] == oid {
            return ;
        }
        i += 1;
    }
    oids.push(oid);
}

/// Adds `name` to `names`, unless it is there already.
fn push_new_name(names: &mut Vec<String>, name: &String)
    ensures
        name_views(final(names)@) == with_new(name_views(old(names)@), name@),
{
    let ghost before = name_views(names@);
    let mut i: usize = 0;
    while i < names.len()
        invariant
            i <= names.len(),
            names@ == old(names)@,
            before == name_views(names@),
            forall|k: int| 0 <= k < i ==> before[k] != name@,
        decreases names.len() - i,
    {
        if str_equals(names[i].as_str(), name.as_str()) {
            assert(before[i as int] == name@);
            return ;
        }
        i += 1;
    }
    names.push(name.clone());
    assert(name_views(names@) =~= before.push(name@));
}


/// The commit that the reference target `target` names, if it names one.
fn parse_target(target: &Option<String>) -> (oid: Option<Oid>)
    ensures
        oid == target_oid(target.deep_view()),
{
    match target {
        Some(text) => match Oid::parse(text.as_str()) {
            Ok(oid) => Some(oid),
            Err(_) => None,
        },
        None => None,
    }
}

} // verus!
