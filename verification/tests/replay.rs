use branchless::event::{make_dummy_transaction_id, Event, Timestamp};
use branchless::oid::Oid;
use branchless::replay::{CommitState, EventReplayer};

fn at(seconds: f64) -> Timestamp {
    Timestamp { bits: seconds.to_bits() }
}

fn oid(digit: char) -> Oid {
    let text: String = std::iter::repeat(digit).take(40).collect();
    Oid::parse(&text).unwrap()
}

fn hex(digit: char) -> String {
    std::iter::repeat(digit).take(40).collect()
}

fn commit_event(tx: isize, digit: char) -> Event {
    Event::CommitEvent {
        timestamp: at(tx as f64),
        event_tx_id: make_dummy_transaction_id(tx),
        commit_oid: oid(digit),
    }
}

fn hide_event(tx: isize, digit: char) -> Event {
    Event::HideEvent {
        timestamp: at(tx as f64),
        event_tx_id: make_dummy_transaction_id(tx),
        commit_oid: oid(digit),
    }
}

fn unhide_event(tx: isize, digit: char) -> Event {
    Event::UnhideEvent {
        timestamp: at(tx as f64),
        event_tx_id: make_dummy_transaction_id(tx),
        commit_oid: oid(digit),
    }
}

fn ref_update(tx: isize, name: &str, old_ref: Option<&str>, new_ref: Option<&str>) -> Event {
    Event::RefUpdateEvent {
        timestamp: at(tx as f64),
        event_tx_id: make_dummy_transaction_id(tx),
        ref_name: name.to_owned(),
        old_ref: old_ref.map(|s| s.to_owned()),
        new_ref: new_ref.map(|s| s.to_owned()),
        message: None,
    }
}

/// Three transactions: events 1-2, event 3, events 4-6.
fn sample() -> EventReplayer {
    EventReplayer::from_events(vec![
        commit_event(1, 'a'),
        ref_update(1, "HEAD", None, Some(&hex('a'))),
        hide_event(2, 'a'),
        commit_event(3, 'b'),
        ref_update(3, "refs/heads/main", None, Some(&hex('b'))),
        ref_update(3, "HEAD", Some(&hex('a')), Some(&hex('b'))),
    ])
}

#[test]
fn test_default_cursor_is_the_present() {
    let replayer = sample();
    assert_eq!(replayer.num_events(), 6);
    assert_eq!(replayer.make_default_cursor().event_id(), 6);
    let empty = EventReplayer::from_events(Vec::new());
    assert_eq!(empty.make_default_cursor().event_id(), 0);
}

#[test]
fn test_make_cursor_clamps() {
    let replayer = sample();
    assert_eq!(replayer.make_cursor(0).event_id(), 0);
    assert_eq!(replayer.make_cursor(4).event_id(), 4);
    assert_eq!(replayer.make_cursor(6).event_id(), 6);
    assert_eq!(replayer.make_cursor(7).event_id(), 6);
    assert_eq!(replayer.make_cursor(isize::MAX).event_id(), 6);
    assert_eq!(replayer.make_cursor(-1).event_id(), 5);
    assert_eq!(replayer.make_cursor(-6).event_id(), 0);
    assert_eq!(replayer.make_cursor(-7).event_id(), 0);
    assert_eq!(replayer.make_cursor(isize::MIN).event_id(), 0);
}

#[test]
fn test_advance_by_transaction() {
    let replayer = sample();
    let start = replayer.make_cursor(0);
    let one = replayer.advance_cursor_by_transaction(start, 1);
    assert_eq!(one.event_id(), 2);
    let two = replayer.advance_cursor_by_transaction(one, 1);
    assert_eq!(two.event_id(), 3);
    let three = replayer.advance_cursor_by_transaction(two, 1);
    assert_eq!(three.event_id(), 6);
    assert_eq!(replayer.advance_cursor_by_transaction(three, 1).event_id(), 6);
    assert_eq!(replayer.advance_cursor_by_transaction(start, 2).event_id(), 3);
    assert_eq!(replayer.advance_cursor_by_transaction(start, 100).event_id(), 6);
    assert_eq!(replayer.advance_cursor_by_transaction(start, isize::MAX).event_id(), 6);
    assert_eq!(replayer.advance_cursor_by_transaction(three, -1).event_id(), 3);
    assert_eq!(replayer.advance_cursor_by_transaction(three, -2).event_id(), 2);
    assert_eq!(replayer.advance_cursor_by_transaction(three, -3).event_id(), 0);
    assert_eq!(replayer.advance_cursor_by_transaction(three, isize::MIN).event_id(), 0);
    assert_eq!(replayer.advance_cursor_by_transaction(start, -1).event_id(), 0);
    assert_eq!(replayer.advance_cursor_by_transaction(two, 0).event_id(), 3);
}

#[test]
fn test_advance_from_inside_a_transaction() {
    let replayer = sample();
    let inside = replayer.make_cursor(4);
    assert_eq!(replayer.advance_cursor_by_transaction(inside, 1).event_id(), 6);
    assert_eq!(replayer.advance_cursor_by_transaction(inside, -1).event_id(), 3);
    let first = replayer.make_cursor(1);
    assert_eq!(replayer.advance_cursor_by_transaction(first, -1).event_id(), 0);
    assert_eq!(replayer.advance_cursor_by_transaction(first, 1).event_id(), 2);
}

#[test]
fn test_forward_then_back_returns_to_boundary() {
    let replayer = sample();
    for boundary in [0_isize, 2, 3] {
        let cursor = replayer.make_cursor(boundary);
        let forward = replayer.advance_cursor_by_transaction(cursor, 1);
        let back = replayer.advance_cursor_by_transaction(forward, -1);
        assert_eq!(back, cursor);
    }
}

#[test]
fn test_tx_events_before_cursor() {
    let replayer = sample();
    assert_eq!(replayer.get_tx_events_before_cursor(replayer.make_cursor(0)), None);
    assert_eq!(replayer.get_tx_events_before_cursor(replayer.make_cursor(1)), None);
    assert_eq!(
        replayer.get_tx_events_before_cursor(replayer.make_cursor(2)),
        Some((
            make_dummy_transaction_id(1),
            vec![commit_event(1, 'a'), ref_update(1, "HEAD", None, Some(&hex('a')))]
        ))
    );
    assert_eq!(
        replayer.get_tx_events_before_cursor(replayer.make_cursor(3)),
        Some((make_dummy_transaction_id(2), vec![hide_event(2, 'a')]))
    );
    assert_eq!(
        replayer.get_tx_events_before_cursor(replayer.make_cursor(5)),
        Some((make_dummy_transaction_id(2), vec![hide_event(2, 'a')]))
    );
    let present = replayer.get_tx_events_before_cursor(replayer.make_default_cursor());
    let (tx, events) = present.unwrap();
    assert_eq!(tx, make_dummy_transaction_id(3));
    assert_eq!(events.len(), 3);
    assert_eq!(events[0], commit_event(3, 'b'));
    assert_eq!(replayer.get_event_id_before_cursor(replayer.make_cursor(5)), 3);
    assert_eq!(replayer.get_event_id_before_cursor(replayer.make_cursor(6)), 6);
    assert_eq!(replayer.get_event_id_before_cursor(replayer.make_cursor(1)), 0);
    let empty = EventReplayer::from_events(Vec::new());
    assert_eq!(empty.get_tx_events_before_cursor(empty.make_default_cursor()), None);
}

#[test]
fn test_events_since_cursor() {
    let replayer = sample();
    assert_eq!(replayer.get_events_since_cursor(replayer.make_default_cursor()), Vec::new());
    assert_eq!(
        replayer.get_events_since_cursor(replayer.make_cursor(5)),
        vec![ref_update(3, "HEAD", Some(&hex('a')), Some(&hex('b')))]
    );
    assert_eq!(replayer.get_events_since_cursor(replayer.make_cursor(0)).len(), 6);
}

#[test]
fn test_head_oid_at_cursor() {
    let replayer = sample();
    assert_eq!(replayer.get_cursor_head_oid(replayer.make_cursor(0)), None);
    assert_eq!(replayer.get_cursor_head_oid(replayer.make_cursor(1)), None);
    assert_eq!(replayer.get_cursor_head_oid(replayer.make_cursor(2)), Some(oid('a')));
    assert_eq!(replayer.get_cursor_head_oid(replayer.make_cursor(5)), Some(oid('a')));
    assert_eq!(replayer.get_cursor_head_oid(replayer.make_default_cursor()), Some(oid('b')));
    let deleted = EventReplayer::from_events(vec![
        ref_update(1, "HEAD", None, Some(&hex('a'))),
        ref_update(2, "HEAD", Some(&hex('a')), None),
    ]);
    assert_eq!(deleted.get_cursor_head_oid(deleted.make_default_cursor()), None);
    let symbolic = EventReplayer::from_events(vec![ref_update(
        1,
        "HEAD",
        None,
        Some("ref: refs/heads/main"),
    )]);
    assert_eq!(symbolic.get_cursor_head_oid(symbolic.make_default_cursor()), None);
}

#[test]
fn test_refs_at_cursor() {
    let replayer = sample();
    let present = replayer.make_default_cursor();
    assert_eq!(replayer.get_cursor_ref(present, "refs/heads/main"), Some(hex('b')));
    assert_eq!(replayer.get_cursor_ref(present, "refs/heads/other"), None);
    assert_eq!(replayer.get_cursor_ref(replayer.make_cursor(4), "refs/heads/main"), None);
    assert_eq!(replayer.get_cursor_main_branch_oid(present, "refs/heads/main"), Some(oid('b')));
    assert_eq!(replayer.get_cursor_main_branch_oid(present, "refs/heads/master"), None);
}

#[test]
fn test_commit_state_at_cursor() {
    let replayer = EventReplayer::from_events(vec![
        commit_event(1, 'a'),
        hide_event(2, 'a'),
        unhide_event(3, 'a'),
        unhide_event(4, 'c'),
        Event::RewriteEvent {
            timestamp: at(5.0),
            event_tx_id: make_dummy_transaction_id(5),
            old_commit_oid: oid('a'),
            new_commit_oid: oid('b'),
        },
    ]);
    let unknown = CommitState { is_visible: false, is_committed_by_user: false };
    let own_visible = CommitState { is_visible: true, is_committed_by_user: true };
    let own_hidden = CommitState { is_visible: false, is_committed_by_user: true };
    assert_eq!(replayer.get_cursor_commit_state(replayer.make_cursor(0), oid('a')), unknown);
    assert_eq!(replayer.get_cursor_commit_state(replayer.make_cursor(1), oid('a')), own_visible);
    assert_eq!(replayer.get_cursor_commit_state(replayer.make_cursor(2), oid('a')), own_hidden);
    assert_eq!(replayer.get_cursor_commit_state(replayer.make_cursor(3), oid('a')), own_visible);
    assert_eq!(
        replayer.get_cursor_commit_state(replayer.make_cursor(4), oid('c')),
        CommitState { is_visible: true, is_committed_by_user: false }
    );
    assert_eq!(replayer.get_cursor_commit_state(replayer.make_cursor(5), oid('a')), own_hidden);
    assert_eq!(replayer.get_cursor_commit_state(replayer.make_cursor(5), oid('b')), own_visible);
    assert_eq!(replayer.get_cursor_commit_state(replayer.make_cursor(5), oid('d')), unknown);
}

#[test]
fn test_replay_is_repeatable() {
    let first = sample();
    let second = sample();
    for position in 0..=6 {
        let a = first.make_cursor(position);
        let b = second.make_cursor(position);
        assert_eq!(first.get_cursor_head_oid(a), second.get_cursor_head_oid(b));
        assert_eq!(
            first.get_cursor_commit_state(a, oid('a')),
            second.get_cursor_commit_state(b, oid('a'))
        );
    }
}

#[test]
fn test_active_oids_at_cursor() {
    let replayer = EventReplayer::from_events(vec![
        commit_event(1, 'a'),
        commit_event(2, 'b'),
        hide_event(3, 'a'),
        unhide_event(4, 'c'),
        hide_event(5, 'd'),
        commit_event(6, 'b'),
    ]);
    assert_eq!(replayer.get_cursor_active_oids(replayer.make_cursor(0)), vec![]);
    assert_eq!(replayer.get_cursor_active_oids(replayer.make_cursor(2)), vec![oid('a'), oid('b')]);
    assert_eq!(replayer.get_cursor_active_oids(replayer.make_cursor(3)), vec![oid('b')]);
    assert_eq!(
        replayer.get_cursor_active_oids(replayer.make_default_cursor()),
        vec![oid('b'), oid('c')]
    );
}

#[test]
fn test_branches_at_cursor() {
    let replayer = EventReplayer::from_events(vec![
        ref_update(1, "HEAD", None, Some(&hex('a'))),
        ref_update(2, "refs/heads/main", None, Some(&hex('a'))),
        ref_update(3, "refs/heads/topic", None, Some(&hex('b'))),
        ref_update(4, "refs/tags/v1", None, Some(&hex('c'))),
        ref_update(5, "refs/heads/odd", None, Some("ref: refs/heads/main")),
        ref_update(6, "refs/heads/main", Some(&hex('a')), Some(&hex('d'))),
        ref_update(7, "refs/heads/topic", Some(&hex('b')), None),
    ]);
    assert_eq!(replayer.get_cursor_branch_oid_to_names(replayer.make_cursor(0)), vec![]);
    assert_eq!(
        replayer.get_cursor_branch_oid_to_names(replayer.make_cursor(5)),
        vec![
            (oid('a'), "refs/heads/main".to_owned()),
            (oid('b'), "refs/heads/topic".to_owned())
        ]
    );
    assert_eq!(
        replayer.get_cursor_branch_oid_to_names(replayer.make_default_cursor()),
        vec![(oid('d'), "refs/heads/main".to_owned())]
    );
}
