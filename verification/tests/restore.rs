use branchless::event::{make_dummy_transaction_id, Event, Timestamp};
use branchless::oid::Oid;
use branchless::replay::EventReplayer;
use branchless::undo::inverse_events;

fn at(seconds: f64) -> Timestamp {
    Timestamp { bits: seconds.to_bits() }
}

fn hex(digit: char) -> String {
    std::iter::repeat(digit).take(40).collect()
}

fn oid(digit: char) -> Oid {
    Oid::parse(&hex(digit)).unwrap()
}

fn ref_update(tx: isize, name: &str, old_ref: Option<&str>, new_ref: Option<&str>) -> Event {
    Event::RefUpdateEvent {
        timestamp: at(tx as f64),
        event_tx_id: make_dummy_transaction_id(tx),
        ref_name: name.to_owned(),
        old_ref: old_ref.map(|s| s.to_owned()),
        new_ref: new_ref.map(|s| s.to_owned()),
        message: Some("recorded".to_owned()),
    }
}

fn commit_event(tx: isize, digit: char) -> Event {
    Event::CommitEvent {
        timestamp: at(tx as f64),
        event_tx_id: make_dummy_transaction_id(tx),
        commit_oid: oid(digit),
    }
}

#[test]
fn test_undo_restores_the_view() {
    let before = vec![
        commit_event(1, 'a'),
        ref_update(1, "HEAD", None, Some(&hex('a'))),
        ref_update(1, "refs/heads/main", None, Some(&hex('a'))),
        commit_event(2, 'b'),
    ];
    let since = vec![
        commit_event(3, 'c'),
        ref_update(3, "HEAD", Some(&hex('a')), Some(&hex('c'))),
        ref_update(3, "refs/heads/main", Some(&hex('a')), Some(&hex('c'))),
        Event::HideEvent {
            timestamp: at(4.0),
            event_tx_id: make_dummy_transaction_id(4),
            commit_oid: oid('b'),
        },
        Event::RewriteEvent {
            timestamp: at(5.0),
            event_tx_id: make_dummy_transaction_id(5),
            old_commit_oid: oid('c'),
            new_commit_oid: oid('d'),
        },
        ref_update(5, "HEAD", Some(&hex('c')), Some(&hex('d'))),
        ref_update(5, "refs/heads/topic", None, Some(&hex('d'))),
        ref_update(6, "refs/heads/main", Some(&hex('c')), None),
    ];
    let undoing = inverse_events(since.clone(), at(9.0), make_dummy_transaction_id(9));
    assert_eq!(undoing.len(), 7);

    let mut all = before.clone();
    all.extend(since);
    all.extend(undoing);
    let earlier = EventReplayer::from_events(before);
    let restored = EventReplayer::from_events(all);
    let then = earlier.make_default_cursor();
    let now = restored.make_default_cursor();

    assert_eq!(restored.get_cursor_head_oid(now), earlier.get_cursor_head_oid(then));
    assert_eq!(restored.get_cursor_head_oid(now), Some(oid('a')));
    for name in ["HEAD", "refs/heads/main", "refs/heads/topic"] {
        assert_eq!(restored.get_cursor_ref(now, name), earlier.get_cursor_ref(then, name));
    }
    for digit in ['a', 'b', 'c', 'd', 'e'] {
        assert_eq!(
            restored.get_cursor_commit_state(now, oid(digit)).is_visible,
            earlier.get_cursor_commit_state(then, oid(digit)).is_visible
        );
    }
    assert_eq!(restored.get_cursor_active_oids(now), vec![oid('a'), oid('b')]);
    assert_eq!(
        restored.get_cursor_branch_oid_to_names(now),
        vec![(oid('a'), "refs/heads/main".to_owned())]
    );
}
