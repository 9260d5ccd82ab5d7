//! Why undo works: replaying the inverse events after the events they invert
//! gives back the repository as it was.

use crate::event::{EventTransactionId, EventView, Timestamp, HEAD};
use crate::oid::Oid;
use crate::replay::{apply_event, commit_state, replay, target_oid, RepoView};
use crate::undo::{
    head_updates, inverses_in_reverse, is_head_creation, spec_checkouts_first, spec_inverse_event,
    spec_inverse_events, spec_optimize_inverse_events, without_head_updates,
};
use vstd::prelude::*;

verus! {

/// The repository `view` after the events of `events`, from the first to the
/// last.
pub open spec fn replay_from(view: RepoView, events: Seq<EventView>) -> RepoView
    decreases events.len(),
{
    if events.len() == 0 {
        view
    } else {
        apply_event(replay_from(view, events.drop_last()), events.last())
    }
}

/// Whether the commit `oid` is visible in `view`.
pub open spec fn is_visible_in(view: RepoView, oid: Oid) -> bool {
    commit_state(view.commits, oid).is_visible
}

/// The target of the reference `ref_name` in `view`, if the reference exists.
pub open spec fn ref_target(view: RepoView, ref_name: Seq<char>) -> Option<Seq<char>> {
    if view.refs.contains_key(ref_name) {
        Some(view.refs[ref_name])
    } else {
        None
    }
}

/// Whether two views show the same repository: the same commit checked out, the
/// same references, and the same commits visible.
pub open spec fn same_view(a: RepoView, b: RepoView) -> bool {
    &&& a.head_oid == b.head_oid
    &&& a.refs == b.refs
    &&& forall|oid: Oid| #[trigger] is_visible_in(a, oid) == is_visible_in(b, oid)
}

/// Whether two views show the same repository but for what is checked out.
pub open spec fn same_but_head(a: RepoView, b: RepoView) -> bool {
    &&& a.refs.remove(HEAD@) == b.refs.remove(HEAD@)
    &&& forall|oid: Oid| #[trigger] is_visible_in(a, oid) == is_visible_in(b, oid)
}

/// Whether the commit that `view` has checked out is the one that its `HEAD`
/// reference names.
pub open spec fn head_follows_refs(view: RepoView) -> bool {
    view.head_oid == target_oid(ref_target(view, HEAD@))
}

/// Whether `event` records a change that really happened to `view`: a commit
/// that is made or unhidden was not visible before; one that is hidden or
/// rewritten was visible, and the commit that takes its place was not; a
/// reference had the old target that the event names. A `HEAD` that comes into
/// being is left out: undo does not take that back.
pub open spec fn is_faithful(view: RepoView, event: EventView) -> bool {
    match event {
        EventView::Commit { commit_oid, .. } => !is_visible_in(view, commit_oid),
        EventView::Hide { commit_oid, .. } => is_visible_in(view, commit_oid),
        EventView::Unhide { commit_oid, .. } => !is_visible_in(view, commit_oid),
        EventView::Rewrite { old_commit_oid, new_commit_oid, .. } => {
            &&& is_visible_in(view, old_commit_oid)
            &&& !is_visible_in(view, new_commit_oid)
        },
        EventView::RefUpdate { ref_name, old_ref, .. } => {
            &&& old_ref == ref_target(view, ref_name)
            &&& !is_head_creation(event)
        },
    }
}

/// Whether each of `events` records a change that really happened to the
/// repository as the events before it left it, starting from `view`.
pub open spec fn are_faithful(view: RepoView, events: Seq<EventView>) -> bool
    decreases events.len(),
{
    events.len() == 0 || (is_faithful(view, events[0]) && are_faithful(
        apply_event(view, events[0]),
        events.drop_first(),
    ))
}

proof fn lemma_replay_from_concat(view: RepoView, first: Seq<EventView>, second: Seq<EventView>)
    ensures
        replay_from(view, first + second) == replay_from(replay_from(view, first), second),
    decreases second.len(),
{
    if second.len() == 0 {
        assert(first + second =~= first);
    } else {
        lemma_replay_from_concat(view, first, second.drop_last());
        assert((first + second).drop_last() =~= first + second.drop_last());
    }
}

proof fn lemma_replay_from_front(view: RepoView, event: EventView, rest: Seq<EventView>)
    ensures
        replay_from(view, seq![event] + rest) == replay_from(apply_event(view, event), rest),
{
    lemma_replay_from_concat(view, seq![event], rest);
    let single = seq![event];
    assert(single.drop_last() =~= Seq::<EventView>::empty());
    assert(single.last() == event);
    assert(replay_from(view, single.drop_last()) == view);
    assert(replay_from(view, single) == apply_event(view, event));
}

proof fn lemma_replay_is_replay_from(log: Seq<EventView>)
    ensures
        replay(log) == replay_from(crate::replay::empty_view(), log),
    decreases log.len(),
{
    if log.len() > 0 {
        lemma_replay_is_replay_from(log.drop_last());
    }
}

/// The commit that a replayed log has checked out is the one that its `HEAD`
/// reference names.
pub proof fn lemma_head_follows_refs(log: Seq<EventView>)
    ensures
        head_follows_refs(replay(log)),
    decreases log.len(),
{
    if log.len() > 0 {
        lemma_head_follows_refs(log.drop_last());
        lemma_apply_keeps_head_following(replay(log.drop_last()), log.last());
    }
}

proof fn lemma_apply_keeps_head_following(view: RepoView, event: EventView)
    requires
        head_follows_refs(view),
    ensures
        head_follows_refs(apply_event(view, event)),
{
}

proof fn lemma_same_view_is_transitive(a: RepoView, b: RepoView, c: RepoView)
    requires
        same_view(a, b),
        same_view(b, c),
    ensures
        same_view(a, c),
{
    assert forall|oid: Oid| #[trigger] is_visible_in(a, oid) == is_visible_in(c, oid) by {
        assert(is_visible_in(a, oid) == is_visible_in(b, oid));
        assert(is_visible_in(b, oid) == is_visible_in(c, oid));
    }
}

proof fn lemma_apply_respects_same_view(a: RepoView, b: RepoView, event: EventView)
    requires
        same_view(a, b),
    ensures
        same_view(apply_event(a, event), apply_event(b, event)),
{
    let after_a = apply_event(a, event);
    let after_b = apply_event(b, event);
    assert forall|oid: Oid| #[trigger] is_visible_in(after_a, oid) == is_visible_in(after_b, oid) by {
        assert(is_visible_in(a, oid) == is_visible_in(b, oid));
        match event {
            EventView::Rewrite { old_commit_oid, new_commit_oid, .. } => {
                assert(is_visible_in(a, old_commit_oid) == is_visible_in(b, old_commit_oid));
            },
            _ => {},
        }
    }
}

/// An event that really happened, and then its inverse, leave the repository as
/// it was.
proof fn lemma_inverse_takes_back(
    view: RepoView,
    event: EventView,
    timestamp: Timestamp,
    event_tx_id: EventTransactionId,
)
    requires
        head_follows_refs(view),
        is_faithful(view, event),
    ensures
        same_view(
            apply_event(apply_event(view, event), spec_inverse_event(event, timestamp, event_tx_id)),
            view,
        ),
{
    let after = apply_event(
        apply_event(view, event),
        spec_inverse_event(event, timestamp, event_tx_id),
    );
    assert(after.refs =~= view.refs);
    assert forall|oid: Oid| #[trigger] is_visible_in(after, oid) == is_visible_in(view, oid) by {}
}

/// Events that really happened, and then their inverses from the last to the
/// first, leave the repository as it was.
proof fn lemma_inverses_take_back(
    view: RepoView,
    events: Seq<EventView>,
    timestamp: Timestamp,
    event_tx_id: EventTransactionId,
)
    requires
        head_follows_refs(view),
        are_faithful(view, events),
    ensures
        same_view(
            replay_from(view, events + inverses_in_reverse(events, timestamp, event_tx_id)),
            view,
        ),
    decreases events.len(),
{
    let inverses = inverses_in_reverse(events, timestamp, event_tx_id);
    if events.len() == 0 {
        assert(events + inverses =~= Seq::<EventView>::empty());
    } else {
        let event = events[0];
        let rest = events.drop_first();
        let inverse = spec_inverse_event(event, timestamp, event_tx_id);
        let rest_inverses = inverses_in_reverse(rest, timestamp, event_tx_id);
        let after = apply_event(view, event);
        lemma_apply_keeps_head_following(view, event);
        lemma_inverses_take_back(after, rest, timestamp, event_tx_id);
        let middle = rest + rest_inverses;
        assert(events + inverses =~= (seq![event] + middle).push(inverse));
        assert((seq![event] + middle).push(inverse).drop_last() =~= seq![event] + middle);
        lemma_replay_from_front(view, event, middle);
        lemma_apply_respects_same_view(replay_from(after, middle), after, inverse);
        lemma_inverse_takes_back(view, event, timestamp, event_tx_id);
        lemma_same_view_is_transitive(
            apply_event(replay_from(after, middle), inverse),
            apply_event(after, inverse),
            view,
        );
    }
}

proof fn lemma_apply_respects_same_but_head(a: RepoView, b: RepoView, event: EventView)
    requires
        same_but_head(a, b),
        !event.is_head_update(),
    ensures
        same_but_head(apply_event(a, event), apply_event(b, event)),
{
    let after_a = apply_event(a, event);
    let after_b = apply_event(b, event);
    assert forall|oid: Oid| #[trigger] is_visible_in(after_a, oid) == is_visible_in(after_b, oid) by {
        assert(is_visible_in(a, oid) == is_visible_in(b, oid));
        match event {
            EventView::Rewrite { old_commit_oid, new_commit_oid, .. } => {
                assert(is_visible_in(a, old_commit_oid) == is_visible_in(b, old_commit_oid));
            },
            _ => {},
        }
    }
    match event {
        EventView::RefUpdate { ref_name, new_ref, .. } => {
            let a_rest = a.refs.remove(HEAD@);
            let b_rest = b.refs.remove(HEAD@);
            match new_ref {
                Some(target) => {
                    assert(after_a.refs.remove(HEAD@) =~= a_rest.insert(ref_name, target));
                    assert(after_b.refs.remove(HEAD@) =~= b_rest.insert(ref_name, target));
                },
                None => {
                    assert(after_a.refs.remove(HEAD@) =~= a_rest.remove(ref_name));
                    assert(after_b.refs.remove(HEAD@) =~= b_rest.remove(ref_name));
                },
            }
        },
        _ => {},
    }
}

/// A checkout leaves everything as it is but what is checked out.
proof fn lemma_checkout_changes_head_only(view: RepoView, event: EventView)
    requires
        event.is_head_update(),
    ensures
        same_but_head(apply_event(view, event), view),
{
    let after = apply_event(view, event);
    assert(after.refs.remove(HEAD@) =~= view.refs.remove(HEAD@));
    assert forall|oid: Oid| #[trigger] is_visible_in(after, oid) == is_visible_in(view, oid) by {}
}

/// After a checkout, two views that differed in what was checked out only show
/// the same repository.
proof fn lemma_checkout_settles_head(a: RepoView, b: RepoView, event: EventView)
    requires
        same_but_head(a, b),
        event.is_head_update(),
    ensures
        same_view(apply_event(a, event), apply_event(b, event)),
{
    let after_a = apply_event(a, event);
    let after_b = apply_event(b, event);
    match event {
        EventView::RefUpdate { new_ref, .. } => {
            match new_ref {
                Some(target) => {
                    assert(after_a.refs =~= a.refs.remove(HEAD@).insert(HEAD@, target));
                    assert(after_b.refs =~= b.refs.remove(HEAD@).insert(HEAD@, target));
                },
                None => {
                    assert(after_a.refs =~= a.refs.remove(HEAD@));
                    assert(after_b.refs =~= b.refs.remove(HEAD@));
                },
            }
        },
        _ => {},
    }
    assert forall|oid: Oid| #[trigger] is_visible_in(after_a, oid) == is_visible_in(after_b, oid) by {
        assert(is_visible_in(a, oid) == is_visible_in(b, oid));
    }
}

proof fn lemma_same_but_head_is_transitive(a: RepoView, b: RepoView, c: RepoView)
    requires
        same_but_head(a, b),
        same_but_head(b, c),
    ensures
        same_but_head(a, c),
{
    assert forall|oid: Oid| #[trigger] is_visible_in(a, oid) == is_visible_in(c, oid) by {
        assert(is_visible_in(a, oid) == is_visible_in(b, oid));
        assert(is_visible_in(b, oid) == is_visible_in(c, oid));
    }
}

/// Without its checkouts, a sequence of events leaves everything the same but
/// what is checked out.
proof fn lemma_checkouts_change_head_only(view: RepoView, events: Seq<EventView>)
    ensures
        same_but_head(
            replay_from(view, without_head_updates(events)),
            replay_from(view, events),
        ),
    decreases events.len(),
{
    if events.len() == 0 {
        assert forall|oid: Oid| #[trigger]
            is_visible_in(view, oid) == is_visible_in(view, oid) by {}
    } else {
        let init = events.drop_last();
        let last = events.last();
        lemma_checkouts_change_head_only(view, init);
        let kept = without_head_updates(init);
        if last.is_head_update() {
            lemma_checkout_changes_head_only(replay_from(view, init), last);
            assert forall|oid: Oid| #[trigger]
                is_visible_in(replay_from(view, init), oid) == is_visible_in(
                    replay_from(view, events),
                    oid,
                ) by {
                assert(is_visible_in(replay_from(view, events), oid) == is_visible_in(
                    replay_from(view, init),
                    oid,
                ));
            }
            lemma_same_but_head_is_transitive(
                replay_from(view, kept),
                replay_from(view, init),
                replay_from(view, events),
            );
        } else {
            assert(kept.push(last).drop_last() =~= kept);
            lemma_apply_respects_same_but_head(
                replay_from(view, kept),
                replay_from(view, init),
                last,
            );
        }
    }
}

/// Leaving out every checkout but the last changes nothing in the end.
proof fn lemma_optimize_keeps_view(view: RepoView, events: Seq<EventView>)
    ensures
        same_view(
            replay_from(view, spec_optimize_inverse_events(events)),
            replay_from(view, events),
        ),
    decreases events.len(),
{
    if events.len() == 0 {
        assert forall|oid: Oid| #[trigger]
            is_visible_in(view, oid) == is_visible_in(view, oid) by {}
    } else {
        let init = events.drop_last();
        let last = events.last();
        if last.is_head_update() {
            let kept = without_head_updates(init);
            assert(kept.push(last).drop_last() =~= kept);
            lemma_checkouts_change_head_only(view, init);
            lemma_checkout_settles_head(replay_from(view, kept), replay_from(view, init), last);
        } else {
            let kept = spec_optimize_inverse_events(init);
            assert(kept.push(last).drop_last() =~= kept);
            lemma_optimize_keeps_view(view, init);
            lemma_apply_respects_same_view(
                replay_from(view, kept),
                replay_from(view, init),
                last,
            );
        }
    }
}

/// A checkout and an event that is none can change places.
proof fn lemma_checkout_commutes(view: RepoView, checkout: EventView, other: EventView)
    requires
        checkout.is_head_update(),
        !other.is_head_update(),
    ensures
        same_view(
            apply_event(apply_event(view, checkout), other),
            apply_event(apply_event(view, other), checkout),
        ),
{
    let first = apply_event(apply_event(view, checkout), other);
    let second = apply_event(apply_event(view, other), checkout);
    assert(first.refs =~= second.refs);
    assert forall|oid: Oid| #[trigger] is_visible_in(first, oid) == is_visible_in(second, oid) by {}
}

/// A checkout can be moved behind events that are no checkouts.
proof fn lemma_checkout_moves_back(view: RepoView, checkout: EventView, others: Seq<EventView>)
    requires
        checkout.is_head_update(),
        forall|i: int| 0 <= i < others.len() ==> !(#[trigger] others[i]).is_head_update(),
    ensures
        same_view(
            replay_from(apply_event(view, checkout), others),
            apply_event(replay_from(view, others), checkout),
        ),
    decreases others.len(),
{
    if others.len() == 0 {
        let after = apply_event(view, checkout);
        assert forall|oid: Oid| #[trigger]
            is_visible_in(after, oid) == is_visible_in(after, oid) by {}
    } else {
        let init = others.drop_last();
        let last = others.last();
        assert forall|i: int| 0 <= i < init.len() implies !(#[trigger] init[i]).is_head_update() by {
            assert(init[i] == others[i]);
        }
        lemma_checkout_moves_back(view, checkout, init);
        let before = replay_from(view, init);
        lemma_apply_respects_same_view(
            replay_from(apply_event(view, checkout), init),
            apply_event(before, checkout),
            last,
        );
        lemma_checkout_commutes(before, checkout, last);
        lemma_same_view_is_transitive(
            replay_from(apply_event(view, checkout), others),
            apply_event(apply_event(before, checkout), last),
            apply_event(apply_event(before, last), checkout),
        );
    }
}

proof fn lemma_kept_are_no_checkouts(events: Seq<EventView>)
    ensures
        forall|i: int|
            0 <= i < without_head_updates(events).len() ==> !(#[trigger] without_head_updates(
                events,
            )[i]).is_head_update(),
    decreases events.len(),
{
    if events.len() > 0 {
        lemma_kept_are_no_checkouts(events.drop_last());
        let kept = without_head_updates(events);
        let fewer = without_head_updates(events.drop_last());
        assert forall|i: int| 0 <= i < kept.len() implies !(#[trigger] kept[i]).is_head_update() by {
            if i < fewer.len() {
                assert(kept[i] == fewer[i]);
            }
        }
    }
}

/// Applying the checkouts first changes nothing in the end.
proof fn lemma_checkouts_first_keeps_view(view: RepoView, events: Seq<EventView>)
    ensures
        same_view(replay_from(view, spec_checkouts_first(events)), replay_from(view, events)),
    decreases events.len(),
{
    let heads = head_updates(events);
    let others = without_head_updates(events);
    if events.len() == 0 {
        assert(heads + others =~= Seq::<EventView>::empty());
        assert forall|oid: Oid| #[trigger]
            is_visible_in(view, oid) == is_visible_in(view, oid) by {}
    } else {
        let init = events.drop_last();
        let last = events.last();
        let init_heads = head_updates(init);
        let init_others = without_head_updates(init);
        lemma_checkouts_first_keeps_view(view, init);
        if last.is_head_update() {
            lemma_kept_are_no_checkouts(init);
            let before = replay_from(view, init_heads);
            assert(init_heads.push(last).drop_last() =~= init_heads);
            lemma_replay_from_concat(view, init_heads.push(last), init_others);
            lemma_checkout_moves_back(before, last, init_others);
            lemma_replay_from_concat(view, init_heads, init_others);
            lemma_apply_respects_same_view(
                replay_from(view, init_heads + init_others),
                replay_from(view, init),
                last,
            );
            lemma_same_view_is_transitive(
                replay_from(view, heads + others),
                apply_event(replay_from(view, init_heads + init_others), last),
                replay_from(view, events),
            );
        } else {
            assert(heads + others =~= (init_heads + init_others).push(last));
            assert((init_heads + init_others).push(last).drop_last() =~= init_heads + init_others);
            lemma_apply_respects_same_view(
                replay_from(view, init_heads + init_others),
                replay_from(view, init),
                last,
            );
        }
    }
}

/// Undo gives back the repository as it was. Take a log, and events after it
/// that record what really happened. Then the log, those events, and the events
/// that undo them, replayed together, show the same repository as the log alone:
/// the same commit checked out, the same references, the same commits visible.
pub proof fn lemma_undo_restores_view(
    log: Seq<EventView>,
    since: Seq<EventView>,
    timestamp: Timestamp,
    event_tx_id: EventTransactionId,
)
    requires
        are_faithful(replay(log), since),
    ensures
        same_view(
            replay(log + since + spec_inverse_events(since, timestamp, event_tx_id)),
            replay(log),
        ),
{
    let view = replay(log);
    let inverses = inverses_in_reverse(since, timestamp, event_tx_id);
    let optimized = spec_optimize_inverse_events(inverses);
    let applied = spec_inverse_events(since, timestamp, event_tx_id);
    let empty = crate::replay::empty_view();
    lemma_replay_is_replay_from(log + since + applied);
    lemma_replay_is_replay_from(log);
    lemma_replay_from_concat(empty, log + since, applied);
    lemma_replay_from_concat(empty, log, since);
    let after = replay_from(view, since);
    assert(replay(log + since + applied) == replay_from(after, applied));
    lemma_checkouts_first_keeps_view(after, optimized);
    lemma_optimize_keeps_view(after, inverses);
    lemma_same_view_is_transitive(
        replay_from(after, applied),
        replay_from(after, optimized),
        replay_from(after, inverses),
    );
    lemma_replay_from_concat(view, since, inverses);
    lemma_head_follows_refs(log);
    lemma_inverses_take_back(view, since, timestamp, event_tx_id);
    lemma_same_view_is_transitive(replay_from(after, applied), replay_from(after, inverses), view);
}

} // verus!
