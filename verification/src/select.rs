//! Choosing a point in the past: what the keys of the selector mean, and what
//! each message does to the cursor.

use crate::describe::{plain, Spans};
use crate::event::{EventTransactionId, EventView};
use crate::lines::push_all;
use crate::replay::{spec_advance, spec_make_cursor, EventCursor, EventReplayer};
use crate::styled::{styled_append_plain, styled_plain, styled_spans};
use crate::text::{chars_string, digit_of, digit_value, push_decimal, spec_decimal, str_chars};
use cursive::utils::markup::StyledString;
use vstd::prelude::*;

verus! {

/// What the selector is told to do.
#[derive(Clone, Copy, Debug, PartialEq, Eq, Structural)]
pub enum Message {
    /// Set up the views and draw them.
    Init,
    /// Go one transaction forward.
    Next,
    /// Go one transaction back.
    Previous,
    /// Ask the user for an event to go to.
    GoToEvent,
    /// Go to the event that the user named.
    SetEventReplayerCursor { event_id: isize },
    /// Show how the selector is used.
    Help,
    /// Leave without a choice.
    Quit,
    /// Leave with the cursor as the choice.
    SelectEventIdAndQuit,
}

/// A key that the user pressed.
#[derive(Clone, Copy, Debug, PartialEq, Eq, Structural)]
pub enum Key {
    Char(char),
    Left,
    Right,
    Enter,
}

/// What the program around the selector has to do after a message.
#[derive(Clone, Copy, Debug, PartialEq, Eq, Structural)]
pub enum Reaction {
    /// Create the smartlog view and the info view, then draw them.
    Start,
    /// Draw the smartlog and the info panel for the cursor.
    Redraw,
    /// Open the dialog that asks for an event.
    AskForEvent,
    /// Open the help dialog.
    ShowHelp,
    /// Stop; nothing was chosen.
    Quit,
    /// Stop; the cursor is the choice.
    Accept,
}

/// The keys of the selector and the message that each sends.
pub open spec fn spec_key_bindings() -> Seq<(Key, Message)> {
    seq![
        (Key::Char('n'), Message::Next),
        (Key::Char('N'), Message::Next),
        (Key::Right, Message::Next),
        (Key::Char('p'), Message::Previous),
        (Key::Char('P'), Message::Previous),
        (Key::Left, Message::Previous),
        (Key::Char('h'), Message::Help),
        (Key::Char('H'), Message::Help),
        (Key::Char('?'), Message::Help),
        (Key::Char('g'), Message::GoToEvent),
        (Key::Char('G'), Message::GoToEvent),
        (Key::Char('q'), Message::Quit),
        (Key::Char('Q'), Message::Quit),
        (Key::Enter, Message::SelectEventIdAndQuit),
    ]
}

/// The message that `key` sends, if it is bound.
pub open spec fn spec_key_message(key: Key) -> Option<Message> {
    match key {
        Key::Char(c) => if c == 'n' || c == 'N' {
            Some(Message::Next)
        } else if c == 'p' || c == 'P' {
            Some(Message::Previous)
        } else if c == 'h' || c == 'H' || c == '?' {
            Some(Message::Help)
        } else if c == 'g' || c == 'G' {
            Some(Message::GoToEvent)
        } else if c == 'q' || c == 'Q' {
            Some(Message::Quit)
        } else {
            None
        },
        Key::Right => Some(Message::Next),
        Key::Left => Some(Message::Previous),
        Key::Enter => Some(Message::SelectEventIdAndQuit),
    }
}

/// A key sends a message exactly if it is among the bindings, and then the
/// message that stands with it there.
pub proof fn lemma_bindings_are_the_key_messages(key: Key)
    ensures
        match spec_key_message(key) {
            Some(message) => spec_key_bindings().contains((key, message)),
            None => forall|i: int|
                0 <= i < spec_key_bindings().len() ==> (#[trigger] spec_key_bindings()[i]).0 != key,
        },
        forall|i: int|
            0 <= i < spec_key_bindings().len() && (#[trigger] spec_key_bindings()[i]).0 == key
                ==> spec_key_message(key) == Some(spec_key_bindings()[i].1),
{
    let bindings = spec_key_bindings();
    match spec_key_message(key) {
        Some(message) => {
            let at = choose|i: int| 0 <= i < 14 && #[trigger] bindings[i] == (key, message);
            assert(bindings[0] == (Key::Char('n'), Message::Next));
            assert(bindings[1] == (Key::Char('N'), Message::Next));
            assert(bindings[2] == (Key::Right, Message::Next));
            assert(bindings[3] == (Key::Char('p'), Message::Previous));
            assert(bindings[4] == (Key::Char('P'), Message::Previous));
            assert(bindings[5] == (Key::Left, Message::Previous));
            assert(bindings[6] == (Key::Char('h'), Message::Help));
            assert(bindings[7] == (Key::Char('H'), Message::Help));
            assert(bindings[8] == (Key::Char('?'), Message::Help));
            assert(bindings[9] == (Key::Char('g'), Message::GoToEvent));
            assert(bindings[10] == (Key::Char('G'), Message::GoToEvent));
            assert(bindings[11] == (Key::Char('q'), Message::Quit));
            assert(bindings[12] == (Key::Char('Q'), Message::Quit));
            assert(bindings[13] == (Key::Enter, Message::SelectEventIdAndQuit));
            assert(bindings.contains((key, message)));
        },
        None => {},
    }
}

/// The keys of the selector and the message that each sends.
pub fn key_bindings() -> (bindings: Vec<(Key, Message)>)
    ensures
        bindings@ == spec_key_bindings(),
{
    let mut bindings: Vec<(Key, Message)> = Vec::new();
    bindings.push((Key::Char('n'), Message::Next));
    bindings.push((Key::Char('N'), Message::Next));
    bindings.push((Key::Right, Message::Next));
    bindings.push((Key::Char('p'), Message::Previous));
    bindings.push((Key::Char('P'), Message::Previous));
    bindings.push((Key::Left, Message::Previous));
    bindings.push((Key::Char('h'), Message::Help));
    bindings.push((Key::Char('H'), Message::Help));
    bindings.push((Key::Char('?'), Message::Help));
    bindings.push((Key::Char('g'), Message::GoToEvent));
    bindings.push((Key::Char('G'), Message::GoToEvent));
    bindings.push((Key::Char('q'), Message::Quit));
    bindings.push((Key::Char('Q'), Message::Quit));
    bindings.push((Key::Enter, Message::SelectEventIdAndQuit));
    assert(bindings@ =~= spec_key_bindings());
    bindings
}

/// The message that `key` sends, if it is bound.
pub fn key_message(key: Key) -> (message: Option<Message>)
    ensures
        message == spec_key_message(key),
{
    match key {
        Key::Char(c) => {
            if c == 'n' || c == 'N' {
                Some(Message::Next)
            } else if c == 'p' || c == 'P' {
                Some(Message::Previous)
            } else if c == 'h' || c == 'H' || c == '?' {
                Some(Message::Help)
            } else if c == 'g' || c == 'G' {
                Some(Message::GoToEvent)
            } else if c == 'q' || c == 'Q' {
                Some(Message::Quit)
            } else {
                None
            }
        },
        Key::Right => Some(Message::Next),
        Key::Left => Some(Message::Previous),
        Key::Enter => Some(Message::SelectEventIdAndQuit),
    }
}

/// Where the cursor at `position` is after `message`.
pub open spec fn spec_cursor_after(log: Seq<EventView>, position: nat, message: Message) -> nat {
    match message {
        Message::Next => spec_advance(log, position, 1),
        Message::Previous => spec_advance(log, position, -1),
        Message::SetEventReplayerCursor { event_id } => spec_make_cursor(log, event_id as int),
        _ => position,
    }
}

/// What is to be done after `message`.
pub open spec fn spec_reaction(message: Message) -> Reaction {
    match message {
        Message::Init => Reaction::Start,
        Message::Next => Reaction::Redraw,
        Message::Previous => Reaction::Redraw,
        Message::SetEventReplayerCursor { .. } => Reaction::Redraw,
        Message::GoToEvent => Reaction::AskForEvent,
        Message::Help => Reaction::ShowHelp,
        Message::Quit => Reaction::Quit,
        Message::SelectEventIdAndQuit => Reaction::Accept,
    }
}

/// Takes in one message: gives the cursor after it and what is to be done. A
/// step moves the cursor by one transaction; going to an event sets it; no
/// other message moves it.
pub fn handle_message(replayer: &EventReplayer, cursor: EventCursor, message: Message) -> (step: (
    EventCursor,
    Reaction,
))
    ensures
        step.0@ == spec_cursor_after(replayer@, cursor@, message),
        step.1 == spec_reaction(message),
{
    match message {
        Message::Init => (cursor, Reaction::Start),
        Message::Next => (replayer.advance_cursor_by_transaction(cursor, 1), Reaction::Redraw),
        Message::Previous => (
            replayer.advance_cursor_by_transaction(cursor, -1),
            Reaction::Redraw,
        ),
        Message::SetEventReplayerCursor { event_id } => (
            replayer.make_cursor(event_id),
            Reaction::Redraw,
        ),
        Message::GoToEvent => (cursor, Reaction::AskForEvent),
        Message::Help => (cursor, Reaction::ShowHelp),
        Message::Quit => (cursor, Reaction::Quit),
        Message::SelectEventIdAndQuit => (cursor, Reaction::Accept),
    }
}

/// What the selector gives back once it stops after `reaction`: the cursor if
/// the user accepted it, nothing if the user quit. While the selector goes on,
/// there is no result yet.
pub fn selection(reaction: Reaction, cursor: EventCursor) -> (result: Option<Option<EventCursor>>)
    ensures
        result == match reaction {
            Reaction::Accept => Some(Some(cursor)),
            Reaction::Quit => Some(None::<EventCursor>),
            _ => None::<Option<EventCursor>>,
        },
{
    match reaction {
        Reaction::Accept => Some(Some(cursor)),
        Reaction::Quit => Some(None),
        _ => None,
    }
}

/// The title of the dialog that asks for an event.
pub const GO_TO_EVENT_TITLE: &'static str = "Go to event";

/// The title of the help dialog.
pub const HELP_TITLE: &'static str = "How to use";

/// The help of the selector.
pub const HELP_TEXT: &'static str =
    "Use `git undo` to view and revert to previous states of the repository.\n\nh/?: Show this help.\nq: Quit.\np/n or <left>/<right>: View next/previous state.\ng: Go to a provided event ID.\n<enter>: Revert the repository to the given state (requires confirmation).\n\nYou can also copy a commit hash from the past and manually run `git unhide` or `git rebase` on it.\n";

/// What the info panel says at the start of the log.
pub const NO_EVENTS_MESSAGE: &'static str = "There are no previous available events.";

/// Whether `c` is a decimal digit.
pub open spec fn is_decimal_digit(c: char) -> bool {
    digit_value(c) matches Some(d) && d < 10
}

/// Every character of `s` is a decimal digit.
pub open spec fn all_decimal(s: Seq<char>) -> bool {
    forall|i: int| 0 <= i < s.len() ==> is_decimal_digit(#[trigger] s[i])
}

/// The number that the decimal digits `s` write.
pub open spec fn decimal_number(s: Seq<char>) -> nat
    decreases s.len(),
{
    if s.len() == 0 {
        0
    } else {
        decimal_number(s.drop_last()) * 10 + match digit_value(s.last()) {
            Some(d) => d,
            None => 0,
        }
    }
}

/// The integer that `text` writes: decimal digits, at least one, behind an
/// optional sign.
pub open spec fn spec_parse_integer(text: Seq<char>) -> Option<int> {
    let digits = if text.len() > 0 && (text[0] == '-' || text[0] == '+') {
        text.drop_first()
    } else {
        text
    };
    if digits.len() == 0 || !all_decimal(digits) {
        None
    } else if text[0] == '-' {
        Some(-(decimal_number(digits) as int))
    } else {
        Some(decimal_number(digits) as int)
    }
}

/// The event that `text` names, if it names one: an integer that fits the
/// machine's word.
pub open spec fn spec_parse_event_id(text: Seq<char>) -> Option<isize> {
    match spec_parse_integer(text) {
        Some(value) => if isize::MIN <= value <= isize::MAX {
            Some(value as isize)
        } else {
            None
        },
        None => None,
    }
}

/// The event that `text` names, if it names one.
pub fn parse_event_id(text: &str) -> (event_id: Option<isize>)
    ensures
        event_id == spec_parse_event_id(text@),
{
    let chars = str_chars(text);
    if chars.len() == 0 {
        return None;
    }
    let negative = chars[0] == '-';
    let start: usize = if negative || chars[0] == '+' {
        1
    } else {
        0
    };
    let ghost digits = chars@.skip(start as int);
    assert(start == 1 ==> digits =~= chars@.drop_first());
    assert(start == 0 ==> digits =~= chars@);
    if start == chars.len() {
        return None;
    }
    let limit: u128 = (isize::MAX as u128) + 1;
    let mut value: u128 = 0;
    let mut overflow = false;
    let mut i: usize = start;
    assert(digits.take(0) =~= Seq::<char>::empty());
    while i < chars.len()
        invariant
            start <= i <= chars.len(),
            chars@ == text@,
            digits == chars@.skip(start as int),
            digits == if text@.len() > 0 && (text@[0] == '-' || text@[0] == '+') {
                text@.drop_first()
            } else {
                text@
            },
            limit == isize::MAX + 1,
            all_decimal(digits.take(i - start)),
            overflow ==> decimal_number(digits.take(i - start)) > limit,
            !overflow ==> value == decimal_number(digits.take(i - start)) && value <= limit,
        decreases chars.len() - i,
    {
        let ghost read = digits.take(i - start);
        let ghost next = digits.take(i - start + 1);
        proof {
            assert(next.drop_last() =~= read);
            assert(next.last() == chars@[i as int]);
        }
        match digit_of(chars[i]) {
            Some(d) => {
                if d >= 10 {
                    assert(digits[i - start] == chars@[i as int]);
                    assert(!all_decimal(digits));
                    return None;
                }
                if !overflow {
                    value = value * 10 + d as u128;
                    if value > limit {
                        overflow = true;
                    }
                }
                proof {
                    assert forall|k: int| 0 <= k < next.len() implies is_decimal_digit(
                        #[trigger] next[k],
                    ) by {
                        if k < read.len() {
                            assert(next[k] == read[k]);
                        }
                    }
                }
            },
            None => {
                assert(digits[i - start] == chars@[i as int]);
                assert(!all_decimal(digits));
                return None;
            },
        }
        i += 1;
    }
    assert(digits.take(chars.len() - start) =~= digits);
    if overflow {
        None
    } else if negative {
        if value == limit {
            Some(isize::MIN)
        } else {
            Some(-(value as isize))
        }
    } else if value == limit {
        None
    } else {
        Some(value as isize)
    }
}

/// What is said when the user names something that is no event.
pub open spec fn spec_invalid_event_id_message(text: Seq<char>) -> Seq<char> {
    "Invalid event ID: "@ + text
}

/// What is said when the user names something that is no event.
pub fn invalid_event_id_message(text: &str) -> (message: String)
    ensures
        message@ == spec_invalid_event_id_message(text@),
{
    let mut out = str_chars("Invalid event ID: ");
    let more = str_chars(text);
    push_all(&mut out, &more);
    chars_string(&out)
}

/// The integer `value` in decimal digits, behind a minus sign if it is negative.
pub open spec fn spec_signed_decimal(value: int) -> Seq<char> {
    if value < 0 {
        seq!['-'] + spec_decimal((-value) as nat)
    } else {
        spec_decimal(value as nat)
    }
}

/// The integer `value` in decimal digits.
pub fn signed_decimal(value: isize) -> (text: String)
    ensures
        text@ == spec_signed_decimal(value as int),
{
    let mut out: Vec<char> = Vec::new();
    if value < 0 {
        out.push('-');
        let magnitude: u64 = if value == isize::MIN {
            (isize::MAX as u64) + 1
        } else {
            (-value) as u64
        };
        push_decimal(&mut out, magnitude);
    } else {
        push_decimal(&mut out, value as u64);
        assert(out@ =~= spec_decimal(value as nat));
    }
    chars_string(&out)
}

/// The first line of the info panel: which transaction the repository is shown
/// after, the number of its last event, and how long ago it was, if that is
/// told.
pub open spec fn spec_info_header(
    event_tx_id: EventTransactionId,
    event_id: nat,
    relative_time: Seq<char>,
) -> Spans {
    plain("Repo after transaction "@) + plain(spec_signed_decimal(event_tx_id.0 as int)) + plain(
        " (event "@,
    ) + plain(spec_decimal(event_id)) + plain(")"@) + plain(relative_time) + plain(
        ". Press 'h' for help, 'q' to quit."@,
    )
}

/// The first line of the info panel. `relative_time` tells how long ago the
/// transaction was, in brackets behind a blank, or is empty.
pub fn info_header(event_tx_id: EventTransactionId, event_id: usize, relative_time: &str) -> (header:
    StyledString)
    ensures
        styled_spans(header) == spec_info_header(event_tx_id, event_id as nat, relative_time@),
{
    let mut header = styled_plain("Repo after transaction ");
    let transaction = signed_decimal(event_tx_id.0);
    styled_append_plain(&mut header, transaction.as_str());
    styled_append_plain(&mut header, " (event ");
    let mut number: Vec<char> = Vec::new();
    push_decimal(&mut number, event_id as u64);
    assert(number@ =~= spec_decimal(event_id as nat));
    let number = chars_string(&number);
    styled_append_plain(&mut header, number.as_str());
    styled_append_plain(&mut header, ")");
    styled_append_plain(&mut header, relative_time);
    styled_append_plain(&mut header, ". Press 'h' for help, 'q' to quit.");
    assert(styled_spans(header) =~= spec_info_header(
        event_tx_id,
        event_id as nat,
        relative_time@,
    ));
    header
}

/// How long ago something was that was `seconds` ago, in the largest unit that
/// fills: seconds, minutes, hours or days.
pub open spec fn spec_describe_time_delta(seconds: nat) -> Seq<char> {
    if seconds < 60 {
        spec_decimal(seconds) + "s"@
    } else if seconds / 60 < 60 {
        spec_decimal(seconds / 60) + "m"@
    } else if seconds / 3600 < 24 {
        spec_decimal(seconds / 3600) + "h"@
    } else {
        spec_decimal(seconds / 86400) + "d"@
    }
}

/// How long ago something was that was `seconds` ago: `42s`, `5m`, `3h`, `2d`.
pub fn describe_time_delta(seconds: u64) -> (text: String)
    ensures
        text@ == spec_describe_time_delta(seconds as nat),
{
    let (amount, unit) = if seconds < 60 {
        (seconds, "s")
    } else if seconds / 60 < 60 {
        (seconds / 60, "m")
    } else if seconds / 3600 < 24 {
        (seconds / 3600, "h")
    } else {
        (seconds / 86400, "d")
    };
    let mut out: Vec<char> = Vec::new();
    push_decimal(&mut out, amount);
    assert(out@ =~= spec_decimal(amount as nat));
    let tail = str_chars(unit);
    push_all(&mut out, &tail);
    chars_string(&out)
}

/// What the info panel says of the time of a transaction: how long ago it was,
/// in brackets behind a blank.
pub fn relative_time_note(seconds: u64) -> (note: String)
    ensures
        note@ == " ("@ + spec_describe_time_delta(seconds as nat) + " ago)"@,
{
    let mut out = str_chars(" (");
    let delta = describe_time_delta(seconds);
    let chars = str_chars(delta.as_str());
    push_all(&mut out, &chars);
    let tail = str_chars(" ago)");
    push_all(&mut out, &tail);
    chars_string(&out)
}

} // verus!
