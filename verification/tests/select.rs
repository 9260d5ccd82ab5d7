use branchless::event::{make_dummy_transaction_id, Event, Timestamp};
use branchless::oid::Oid;
use branchless::replay::EventReplayer;
use branchless::select::{
    describe_time_delta, relative_time_note, handle_message, info_header, invalid_event_id_message, key_bindings, key_message,
    parse_event_id, selection, signed_decimal, Key, Message, Reaction, HELP_TEXT,
    NO_EVENTS_MESSAGE,
};

fn oid(digit: char) -> Oid {
    let text: String = std::iter::repeat(digit).take(40).collect();
    Oid::parse(&text).unwrap()
}

fn commit_event(tx: isize) -> Event {
    Event::CommitEvent {
        timestamp: Timestamp { bits: 1.0_f64.to_bits() },
        event_tx_id: make_dummy_transaction_id(tx),
        commit_oid: oid('a'),
    }
}

fn sample() -> EventReplayer {
    EventReplayer::from_events(vec![
        commit_event(1),
        commit_event(1),
        commit_event(2),
        commit_event(3),
    ])
}

#[test]
fn test_key_messages() {
    for c in ['n', 'N'] {
        assert_eq!(key_message(Key::Char(c)), Some(Message::Next));
    }
    assert_eq!(key_message(Key::Right), Some(Message::Next));
    for c in ['p', 'P'] {
        assert_eq!(key_message(Key::Char(c)), Some(Message::Previous));
    }
    assert_eq!(key_message(Key::Left), Some(Message::Previous));
    for c in ['h', 'H', '?'] {
        assert_eq!(key_message(Key::Char(c)), Some(Message::Help));
    }
    for c in ['g', 'G'] {
        assert_eq!(key_message(Key::Char(c)), Some(Message::GoToEvent));
    }
    for c in ['q', 'Q'] {
        assert_eq!(key_message(Key::Char(c)), Some(Message::Quit));
    }
    assert_eq!(key_message(Key::Enter), Some(Message::SelectEventIdAndQuit));
    assert_eq!(key_message(Key::Char('x')), None);
    assert_eq!(key_message(Key::Char(' ')), None);
}

#[test]
fn test_key_bindings_agree_with_key_messages() {
    let bindings = key_bindings();
    assert_eq!(bindings.len(), 14);
    for (key, message) in bindings {
        assert_eq!(key_message(key), Some(message));
    }
}

#[test]
fn test_handle_message_moves_by_transaction() {
    let replayer = sample();
    let present = replayer.make_default_cursor();
    let (cursor, reaction) = handle_message(&replayer, present, Message::Init);
    assert_eq!((cursor.event_id(), reaction), (4, Reaction::Start));
    let (cursor, reaction) = handle_message(&replayer, cursor, Message::Previous);
    assert_eq!((cursor.event_id(), reaction), (3, Reaction::Redraw));
    let (cursor, reaction) = handle_message(&replayer, cursor, Message::Previous);
    assert_eq!((cursor.event_id(), reaction), (2, Reaction::Redraw));
    let (cursor, reaction) = handle_message(&replayer, cursor, Message::Previous);
    assert_eq!((cursor.event_id(), reaction), (0, Reaction::Redraw));
    let (cursor, _) = handle_message(&replayer, cursor, Message::Previous);
    assert_eq!(cursor.event_id(), 0);
    let (cursor, reaction) = handle_message(&replayer, cursor, Message::Next);
    assert_eq!((cursor.event_id(), reaction), (2, Reaction::Redraw));
    let (cursor, reaction) =
        handle_message(&replayer, cursor, Message::SetEventReplayerCursor { event_id: 3 });
    assert_eq!((cursor.event_id(), reaction), (3, Reaction::Redraw));
    let (cursor, _) =
        handle_message(&replayer, cursor, Message::SetEventReplayerCursor { event_id: 99 });
    assert_eq!(cursor.event_id(), 4);
    let (cursor, _) =
        handle_message(&replayer, cursor, Message::SetEventReplayerCursor { event_id: -3 });
    assert_eq!(cursor.event_id(), 1);
}

#[test]
fn test_handle_message_dialogs_and_end() {
    let replayer = sample();
    let cursor = replayer.make_cursor(2);
    assert_eq!(handle_message(&replayer, cursor, Message::GoToEvent), (cursor, Reaction::AskForEvent));
    assert_eq!(handle_message(&replayer, cursor, Message::Help), (cursor, Reaction::ShowHelp));
    assert_eq!(handle_message(&replayer, cursor, Message::Quit), (cursor, Reaction::Quit));
    assert_eq!(
        handle_message(&replayer, cursor, Message::SelectEventIdAndQuit),
        (cursor, Reaction::Accept)
    );
    assert_eq!(selection(Reaction::Accept, cursor), Some(Some(cursor)));
    assert_eq!(selection(Reaction::Quit, cursor), Some(None));
    assert_eq!(selection(Reaction::Redraw, cursor), None);
    assert_eq!(selection(Reaction::Start, cursor), None);
    assert_eq!(selection(Reaction::ShowHelp, cursor), None);
    assert_eq!(selection(Reaction::AskForEvent, cursor), None);
}

#[test]
fn test_parse_event_id() {
    assert_eq!(parse_event_id("0"), Some(0));
    assert_eq!(parse_event_id("12"), Some(12));
    assert_eq!(parse_event_id("+12"), Some(12));
    assert_eq!(parse_event_id("-12"), Some(-12));
    assert_eq!(parse_event_id("-0"), Some(0));
    assert_eq!(parse_event_id("0012"), Some(12));
    assert_eq!(parse_event_id(""), None);
    assert_eq!(parse_event_id("-"), None);
    assert_eq!(parse_event_id("+"), None);
    assert_eq!(parse_event_id("1 "), None);
    assert_eq!(parse_event_id(" 1"), None);
    assert_eq!(parse_event_id("1a"), None);
    assert_eq!(parse_event_id("a"), None);
    assert_eq!(parse_event_id("--1"), None);
    assert_eq!(parse_event_id("1.5"), None);
    assert_eq!(parse_event_id(&isize::MAX.to_string()), Some(isize::MAX));
    assert_eq!(parse_event_id(&isize::MIN.to_string()), Some(isize::MIN));
    assert_eq!(parse_event_id("9223372036854775808"), "9223372036854775808".parse::<isize>().ok());
    assert_eq!(parse_event_id("-9223372036854775809"), "-9223372036854775809".parse::<isize>().ok());
    assert_eq!(parse_event_id("99999999999999999999999999999999999999999999"), None);
    assert_eq!(parse_event_id("-99999999999999999999999999999999999999999999"), None);
    for text in ["7", "+7", "-7", "007", "x", "", "+-1", "12345678901234567890"] {
        assert_eq!(parse_event_id(text), text.parse::<isize>().ok());
    }
}

#[test]
fn test_selector_texts() {
    assert_eq!(invalid_event_id_message("abc"), "Invalid event ID: abc");
    assert_eq!(NO_EVENTS_MESSAGE, "There are no previous available events.");
    assert!(HELP_TEXT.starts_with("Use `git undo` to view and revert"));
    assert!(HELP_TEXT.contains("g: Go to a provided event ID.\n"));
    assert_eq!(signed_decimal(0), "0");
    assert_eq!(signed_decimal(-45), "-45");
    assert_eq!(signed_decimal(isize::MIN), isize::MIN.to_string());
    assert_eq!(signed_decimal(isize::MAX), isize::MAX.to_string());
}

#[test]
fn test_info_header() {
    let header = info_header(make_dummy_transaction_id(12), 34, " (5m ago)");
    assert_eq!(
        header.source(),
        "Repo after transaction 12 (event 34) (5m ago). Press 'h' for help, 'q' to quit."
    );
    assert_eq!(header.spans().count(), 7);
    let header = info_header(make_dummy_transaction_id(1), 2, "");
    assert_eq!(
        header.source(),
        "Repo after transaction 1 (event 2). Press 'h' for help, 'q' to quit."
    );
}

#[test]
fn test_describe_time_delta() {
    assert_eq!(describe_time_delta(0), "0s");
    assert_eq!(describe_time_delta(59), "59s");
    assert_eq!(describe_time_delta(60), "1m");
    assert_eq!(describe_time_delta(3599), "59m");
    assert_eq!(describe_time_delta(3600), "1h");
    assert_eq!(describe_time_delta(86399), "23h");
    assert_eq!(describe_time_delta(86400), "1d");
    assert_eq!(describe_time_delta(864000), "10d");
    assert_eq!(describe_time_delta(u64::MAX), format!("{}d", u64::MAX / 86400));
    assert_eq!(relative_time_note(300), " (5m ago)");
}
