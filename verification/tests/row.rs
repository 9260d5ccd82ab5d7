use branchless::event::{make_dummy_transaction_id, Event, Timestamp};
use branchless::oid::{Oid, OidError};
use branchless::row::{event_to_row, row_to_event, Row, RowError};

fn at(seconds: f64) -> Timestamp {
    Timestamp { bits: seconds.to_bits() }
}

fn hex(digit: char) -> String {
    std::iter::repeat(digit).take(40).collect()
}

fn oid(digit: char) -> Oid {
    Oid::parse(&hex(digit)).unwrap()
}

fn row(type_: &str, ref1: Option<&str>, ref2: Option<&str>, ref3: Option<&str>) -> Row {
    Row {
        timestamp: at(1.5),
        type_: type_.to_owned(),
        event_tx_id: 7,
        ref1: ref1.map(|s| s.to_owned()),
        ref2: ref2.map(|s| s.to_owned()),
        ref3: ref3.map(|s| s.to_owned()),
        message: None,
    }
}

#[test]
fn test_rows_of_events() {
    let tx = make_dummy_transaction_id(7);
    assert_eq!(
        event_to_row(&Event::CommitEvent { timestamp: at(1.5), event_tx_id: tx, commit_oid: oid('a') }),
        row("commit", Some(&hex('a')), None, None)
    );
    assert_eq!(
        event_to_row(&Event::HideEvent { timestamp: at(1.5), event_tx_id: tx, commit_oid: oid('a') }),
        row("hide", Some(&hex('a')), None, None)
    );
    assert_eq!(
        event_to_row(&Event::UnhideEvent { timestamp: at(1.5), event_tx_id: tx, commit_oid: oid('a') }),
        row("unhide", Some(&hex('a')), None, None)
    );
    assert_eq!(
        event_to_row(&Event::RewriteEvent {
            timestamp: at(1.5),
            event_tx_id: tx,
            old_commit_oid: oid('a'),
            new_commit_oid: oid('b'),
        }),
        row("rewrite", Some(&hex('a')), Some(&hex('b')), None)
    );
    let update = Event::RefUpdateEvent {
        timestamp: at(1.5),
        event_tx_id: tx,
        ref_name: "refs/heads/foo".to_owned(),
        old_ref: None,
        new_ref: Some(hex('c')),
        message: Some("moved".to_owned()),
    };
    let mut expected = row("ref-move", Some("refs/heads/foo"), None, Some(&hex('c')));
    expected.message = Some("moved".to_owned());
    assert_eq!(event_to_row(&update), expected);
}

#[test]
fn test_row_round_trip_of_every_variant() {
    let tx = make_dummy_transaction_id(3);
    let events = vec![
        Event::CommitEvent { timestamp: at(1.0), event_tx_id: tx, commit_oid: oid('a') },
        Event::HideEvent { timestamp: at(2.0), event_tx_id: tx, commit_oid: oid('b') },
        Event::UnhideEvent { timestamp: at(3.0), event_tx_id: tx, commit_oid: oid('c') },
        Event::RewriteEvent {
            timestamp: at(4.0),
            event_tx_id: tx,
            old_commit_oid: oid('d'),
            new_commit_oid: oid('e'),
        },
        Event::RefUpdateEvent {
            timestamp: at(5.0),
            event_tx_id: tx,
            ref_name: "HEAD".to_owned(),
            old_ref: Some("1".to_owned()),
            new_ref: None,
            message: Some("checkout".to_owned()),
        },
        Event::RefUpdateEvent {
            timestamp: at(6.0),
            event_tx_id: tx,
            ref_name: "refs/heads/main".to_owned(),
            old_ref: None,
            new_ref: None,
            message: None,
        },
    ];
    for event in events {
        assert_eq!(row_to_event(&event_to_row(&event)), Ok(event));
    }
}

#[test]
fn test_row_errors() {
    assert_eq!(row_to_event(&row("merge", Some(&hex('a')), None, None)), Err(RowError::UnknownType));
    assert_eq!(row_to_event(&row("", Some(&hex('a')), None, None)), Err(RowError::UnknownType));
    assert_eq!(row_to_event(&row("Commit", Some(&hex('a')), None, None)), Err(RowError::UnknownType));
    assert_eq!(row_to_event(&row("commit", None, None, None)), Err(RowError::MissingField));
    assert_eq!(row_to_event(&row("hide", None, None, None)), Err(RowError::MissingField));
    assert_eq!(
        row_to_event(&row("rewrite", Some(&hex('a')), None, None)),
        Err(RowError::MissingField)
    );
    assert_eq!(row_to_event(&row("ref-move", None, None, Some("x"))), Err(RowError::MissingField));
    assert_eq!(
        row_to_event(&row("unhide", Some("abc"), None, None)),
        Err(RowError::MalformedOid(OidError::WrongLength))
    );
    let bad = "q".repeat(40);
    assert_eq!(
        row_to_event(&row("rewrite", Some(&hex('a')), Some(&bad), None)),
        Err(RowError::MalformedOid(OidError::BadDigit))
    );
}

#[test]
fn test_row_ignores_unused_fields() {
    let mut with_extras = row("commit", Some(&hex('a')), Some("x"), Some("y"));
    with_extras.message = Some("z".to_owned());
    assert_eq!(
        row_to_event(&with_extras),
        Ok(Event::CommitEvent {
            timestamp: at(1.5),
            event_tx_id: make_dummy_transaction_id(7),
            commit_oid: oid('a'),
        })
    );
}
