use branchless::event::{make_dummy_transaction_id, Event, Timestamp};
use branchless::oid::{Oid, OidError};
use branchless::replay::EventReplayer;
use branchless::undo::{
    applied_message, checkouts_first, exit_code, inverse_event, inverse_events,
    inverse_events_since_cursor, is_confirmed, missing_reference_message,
    optimize_inverse_events, undo_action, UndoAction, ABORTED_MESSAGE, NOTHING_TO_UNDO_MESSAGE,
    UNDO_REFLOG_MESSAGE,
};

fn at(seconds: f64) -> Timestamp {
    Timestamp { bits: seconds.to_bits() }
}

fn oid(digit: char) -> Oid {
    let text: String = std::iter::repeat(digit).take(40).collect();
    Oid::parse(&text).unwrap()
}

fn hex(digit: char) -> String {
    std::iter::repeat(digit).take(40).collect()
}

fn ref_update(
    seconds: f64,
    tx: isize,
    name: &str,
    old_ref: Option<&str>,
    new_ref: Option<&str>,
) -> Event {
    Event::RefUpdateEvent {
        timestamp: at(seconds),
        event_tx_id: make_dummy_transaction_id(tx),
        ref_name: name.to_owned(),
        old_ref: old_ref.map(|s| s.to_owned()),
        new_ref: new_ref.map(|s| s.to_owned()),
        message: None,
    }
}

#[test]
fn undo_test_optimize_inverse_events() {
    let event_tx_id = make_dummy_transaction_id(123);
    let input = vec![
        Event::RefUpdateEvent {
            timestamp: at(1.0),
            event_tx_id,
            ref_name: "HEAD".to_owned(),
            old_ref: Some("1".parse().unwrap()),
            new_ref: Some("2".parse().unwrap()),
            message: None,
        },
        Event::RefUpdateEvent {
            timestamp: at(2.0),
            event_tx_id,
            ref_name: "HEAD".to_owned(),
            old_ref: Some("1".parse().unwrap()),
            new_ref: Some("3".parse().unwrap()),
            message: None,
        },
    ];
    let expected = vec![Event::RefUpdateEvent {
        timestamp: at(2.0),
        event_tx_id,
        ref_name: "HEAD".to_owned(),
        old_ref: Some("1".parse().unwrap()),
        new_ref: Some("3".parse().unwrap()),
        message: None,
    }];
    assert_eq!(optimize_inverse_events(input), expected);
}

#[test]
fn test_optimize_keeps_other_events_in_place() {
    let commit = Event::CommitEvent {
        timestamp: at(1.0),
        event_tx_id: make_dummy_transaction_id(1),
        commit_oid: oid('a'),
    };
    let hide = Event::HideEvent {
        timestamp: at(2.0),
        event_tx_id: make_dummy_transaction_id(1),
        commit_oid: oid('b'),
    };
    let first = ref_update(3.0, 1, "HEAD", Some("1"), Some("2"));
    let branch = ref_update(4.0, 1, "refs/heads/main", Some("1"), Some("2"));
    let last = ref_update(5.0, 1, "HEAD", Some("2"), Some("3"));
    let input = vec![
        commit.clone(),
        first,
        hide.clone(),
        branch.clone(),
        last.clone(),
    ];
    assert_eq!(
        optimize_inverse_events(input),
        vec![commit.clone(), hide.clone(), branch.clone(), last]
    );
    assert_eq!(
        optimize_inverse_events(vec![commit.clone(), hide.clone()]),
        vec![commit, hide]
    );
    assert_eq!(optimize_inverse_events(Vec::new()), Vec::new());
}

#[test]
fn test_inverse_of_commit_is_hide() {
    let event = Event::CommitEvent {
        timestamp: at(1.0),
        event_tx_id: make_dummy_transaction_id(1),
        commit_oid: oid('a'),
    };
    let inverse = inverse_event(event, at(5.0), make_dummy_transaction_id(2));
    assert_eq!(
        inverse,
        Event::HideEvent {
            timestamp: at(5.0),
            event_tx_id: make_dummy_transaction_id(2),
            commit_oid: oid('a'),
        }
    );
}

#[test]
fn test_inverse_of_each_variant() {
    let now = at(9.0);
    let tx = make_dummy_transaction_id(8);
    let old = make_dummy_transaction_id(1);
    assert_eq!(
        inverse_event(
            Event::HideEvent { timestamp: at(1.0), event_tx_id: old, commit_oid: oid('a') },
            now,
            tx
        ),
        Event::UnhideEvent { timestamp: now, event_tx_id: tx, commit_oid: oid('a') }
    );
    assert_eq!(
        inverse_event(
            Event::UnhideEvent { timestamp: at(1.0), event_tx_id: old, commit_oid: oid('a') },
            now,
            tx
        ),
        Event::HideEvent { timestamp: now, event_tx_id: tx, commit_oid: oid('a') }
    );
    assert_eq!(
        inverse_event(
            Event::RewriteEvent {
                timestamp: at(1.0),
                event_tx_id: old,
                old_commit_oid: oid('a'),
                new_commit_oid: oid('b'),
            },
            now,
            tx
        ),
        Event::RewriteEvent {
            timestamp: now,
            event_tx_id: tx,
            old_commit_oid: oid('b'),
            new_commit_oid: oid('a'),
        }
    );
    assert_eq!(
        inverse_event(
            Event::RefUpdateEvent {
                timestamp: at(1.0),
                event_tx_id: old,
                ref_name: "refs/heads/foo".to_owned(),
                old_ref: None,
                new_ref: Some("2".to_owned()),
                message: Some("created".to_owned()),
            },
            now,
            tx
        ),
        Event::RefUpdateEvent {
            timestamp: now,
            event_tx_id: tx,
            ref_name: "refs/heads/foo".to_owned(),
            old_ref: Some("2".to_owned()),
            new_ref: None,
            message: None,
        }
    );
}

#[test]
fn test_inverse_of_inverse_restores_the_event() {
    let event = Event::RewriteEvent {
        timestamp: at(1.0),
        event_tx_id: make_dummy_transaction_id(1),
        old_commit_oid: oid('a'),
        new_commit_oid: oid('b'),
    };
    let once = inverse_event(event.clone(), at(2.0), make_dummy_transaction_id(2));
    let twice = inverse_event(once, at(1.0), make_dummy_transaction_id(1));
    assert_eq!(twice, event);
}

#[test]
fn test_checkouts_first_moves_head_update_to_front() {
    let branch = ref_update(1.0, 7, "refs/heads/main", Some("1"), Some("2"));
    let head = ref_update(2.0, 7, "HEAD", Some("1"), Some("2"));
    let ordered = checkouts_first(vec![branch.clone(), head.clone()]);
    assert_eq!(ordered, vec![head, branch]);
}

#[test]
fn test_checkouts_first_is_stable() {
    let a = ref_update(1.0, 7, "refs/heads/a", Some("1"), Some("2"));
    let h1 = ref_update(2.0, 7, "HEAD", Some("1"), Some("2"));
    let b = ref_update(3.0, 7, "refs/heads/b", Some("1"), Some("2"));
    let h2 = ref_update(4.0, 7, "HEAD", Some("2"), Some("3"));
    let ordered = checkouts_first(vec![a.clone(), h1.clone(), b.clone(), h2.clone()]);
    assert_eq!(ordered, vec![h1, h2, a, b]);
}

#[test]
fn test_inverse_events_reverses_filters_and_orders() {
    let now = at(100.0);
    let tx = make_dummy_transaction_id(50);
    let events = vec![
        ref_update(1.0, 1, "HEAD", None, Some("1")),
        Event::CommitEvent {
            timestamp: at(2.0),
            event_tx_id: make_dummy_transaction_id(2),
            commit_oid: oid('a'),
        },
        ref_update(3.0, 2, "HEAD", Some("1"), Some("2")),
        ref_update(4.0, 3, "refs/heads/foo", Some("1"), Some("2")),
        ref_update(5.0, 4, "HEAD", Some("2"), Some("3")),
    ];
    let expected = vec![
        Event::RefUpdateEvent {
            timestamp: now,
            event_tx_id: tx,
            ref_name: "HEAD".to_owned(),
            old_ref: Some("2".to_owned()),
            new_ref: Some("1".to_owned()),
            message: None,
        },
        Event::RefUpdateEvent {
            timestamp: now,
            event_tx_id: tx,
            ref_name: "refs/heads/foo".to_owned(),
            old_ref: Some("2".to_owned()),
            new_ref: Some("1".to_owned()),
            message: None,
        },
        Event::HideEvent { timestamp: now, event_tx_id: tx, commit_oid: oid('a') },
    ];
    assert_eq!(inverse_events(events, now, tx), expected);
    assert_eq!(inverse_events(Vec::new(), now, tx), Vec::new());
}

#[test]
fn test_inverse_events_since_cursor() {
    let now = at(100.0);
    let tx = make_dummy_transaction_id(50);
    let events = vec![
        Event::CommitEvent {
            timestamp: at(1.0),
            event_tx_id: make_dummy_transaction_id(1),
            commit_oid: oid('a'),
        },
        Event::HideEvent {
            timestamp: at(2.0),
            event_tx_id: make_dummy_transaction_id(2),
            commit_oid: oid('a'),
        },
    ];
    let replayer = EventReplayer::from_events(events);
    let present = replayer.make_default_cursor();
    assert_eq!(inverse_events_since_cursor(&replayer, present, now, tx), Vec::new());
    let before_hide = replayer.make_cursor(1);
    assert_eq!(
        inverse_events_since_cursor(&replayer, before_hide, now, tx),
        vec![Event::UnhideEvent { timestamp: now, event_tx_id: tx, commit_oid: oid('a') }]
    );
}

#[test]
fn test_undo_action_of_each_event() {
    assert_eq!(
        undo_action(ref_update(1.0, 1, "HEAD", Some("1"), Some("abc"))),
        Ok(UndoAction::Checkout { target: "abc".to_owned() })
    );
    assert_eq!(
        undo_action(ref_update(1.0, 1, "HEAD", None, None)),
        Ok(UndoAction::Skip)
    );
    assert_eq!(
        undo_action(ref_update(1.0, 1, "refs/heads/foo", None, None)),
        Ok(UndoAction::Skip)
    );
    assert_eq!(
        undo_action(ref_update(1.0, 1, "refs/heads/foo", Some("1"), None)),
        Ok(UndoAction::DeleteReference { ref_name: "refs/heads/foo".to_owned() })
    );
    assert_eq!(
        undo_action(ref_update(1.0, 1, "refs/heads/foo", None, Some(&hex('c')))),
        Ok(UndoAction::SetReference { ref_name: "refs/heads/foo".to_owned(), oid: oid('c') })
    );
    assert_eq!(
        undo_action(ref_update(1.0, 1, "refs/heads/foo", Some("1"), Some(&hex('d')))),
        Ok(UndoAction::SetReference { ref_name: "refs/heads/foo".to_owned(), oid: oid('d') })
    );
    let hide = Event::HideEvent {
        timestamp: at(1.0),
        event_tx_id: make_dummy_transaction_id(1),
        commit_oid: oid('a'),
    };
    assert_eq!(undo_action(hide.clone()), Ok(UndoAction::RecordEvent { event: hide }));
}

#[test]
fn test_undo_action_rejects_malformed_target() {
    assert_eq!(
        undo_action(ref_update(1.0, 1, "refs/heads/foo", Some("1"), Some("2"))),
        Err(OidError::WrongLength)
    );
    let bad = "z".repeat(40);
    assert_eq!(
        undo_action(ref_update(1.0, 1, "refs/heads/foo", None, Some(&bad))),
        Err(OidError::BadDigit)
    );
}

#[test]
fn test_is_confirmed_accepts_only_y() {
    assert!(is_confirmed("y"));
    assert!(is_confirmed("Y"));
    assert!(is_confirmed("y\n"));
    assert!(is_confirmed("  Y \r\n"));
    assert!(is_confirmed("\u{3000}y\u{a0}"));
    assert!(!is_confirmed("n"));
    assert!(!is_confirmed(""));
    assert!(!is_confirmed("\n"));
    assert!(!is_confirmed("yes"));
    assert!(!is_confirmed("yy"));
    assert!(!is_confirmed("y y"));
    assert!(!is_confirmed("N"));
}

#[test]
fn test_exit_codes() {
    assert_eq!(exit_code(false, false), 0);
    assert_eq!(exit_code(false, true), 0);
    assert_eq!(exit_code(true, true), 0);
    assert_eq!(exit_code(true, false), 1);
}

#[test]
fn test_undo_messages() {
    assert_eq!(applied_message(1), "Applied 1 inverse event.");
    assert_eq!(applied_message(2), "Applied 2 inverse events.");
    assert_eq!(applied_message(0), "Applied 0 inverse events.");
    assert_eq!(applied_message(120), "Applied 120 inverse events.");
    assert_eq!(
        missing_reference_message("refs/heads/foo"),
        "Reference refs/heads/foo did not exist, not deleting it."
    );
    assert!(NOTHING_TO_UNDO_MESSAGE.starts_with("No undo actions to apply"));
    assert_eq!(ABORTED_MESSAGE, "Aborted.");
    assert_eq!(UNDO_REFLOG_MESSAGE, "branchless undo");
}

#[test]
fn test_is_confirmed_trims_as_the_standard_library_does() {
    let spaces = [
        "", " ", "\t", "\n", "\r\n", "\u{b}", "\u{c}", "\u{85}", "\u{a0}", "\u{1680}",
        "\u{2000}", "\u{200a}", "\u{2028}", "\u{2029}", "\u{202f}", "\u{205f}", "\u{3000}",
        "\u{200b}", "\u{feff}", "\u{1c}", "\u{8}", "\u{e}", "\u{2001}", "\u{200c}", "x",
    ];
    for before in spaces {
        for answer in ["y", "Y", "n", "", "yy"] {
            for after in spaces {
                let input = format!("{}{}{}", before, answer, after);
                let trimmed = input.trim();
                assert_eq!(is_confirmed(&input), trimmed == "y" || trimmed == "Y", "{:?}", input);
            }
        }
    }
}
