use branchless::describe::{
    join, describe_event, describe_events_numbered, event_commit_oids, render_ref_name,
    unavailable_commit, DescribeError,
};
use branchless::event::{make_dummy_transaction_id, Event, Timestamp};
use branchless::oid::{Oid, OidError};
use cursive::style::{Effect, EffectStatus};
use cursive::utils::markup::StyledString;

fn at(seconds: f64) -> Timestamp {
    Timestamp { bits: seconds.to_bits() }
}

fn hex(digit: char) -> String {
    std::iter::repeat(digit).take(40).collect()
}

fn oid(digit: char) -> Oid {
    Oid::parse(&hex(digit)).unwrap()
}

fn spans(line: &StyledString) -> Vec<(String, bool)> {
    line.spans()
        .map(|span| {
            (
                span.content.to_owned(),
                span.attr.effects[Effect::Bold] == EffectStatus::OppositeParent,
            )
        })
        .collect()
}

fn plain_spans(parts: &[&str]) -> Vec<(String, bool)> {
    parts.iter().map(|part| ((*part).to_owned(), false)).collect()
}

fn ref_update(name: &str, old_ref: Option<&str>, new_ref: Option<&str>) -> Event {
    Event::RefUpdateEvent {
        timestamp: at(1.0),
        event_tx_id: make_dummy_transaction_id(1),
        ref_name: name.to_owned(),
        old_ref: old_ref.map(|s| s.to_owned()),
        new_ref: new_ref.map(|s| s.to_owned()),
        message: None,
    }
}

fn commit_event(digit: char) -> Event {
    Event::CommitEvent {
        timestamp: at(1.0),
        event_tx_id: make_dummy_transaction_id(1),
        commit_oid: oid(digit),
    }
}

#[test]
fn test_render_ref_name() {
    assert_eq!(render_ref_name("refs/heads/foo"), "branch foo");
    assert_eq!(render_ref_name("refs/heads/"), "branch ");
    assert_eq!(render_ref_name("refs/tags/v1"), "ref refs/tags/v1");
    assert_eq!(render_ref_name("HEAD"), "ref HEAD");
    assert_eq!(render_ref_name(""), "ref ");
    assert_eq!(render_ref_name("refs/heads"), "ref refs/heads");
    assert_eq!(render_ref_name("refs/heads/a/b"), "branch a/b");
}

#[test]
fn test_unavailable_commit() {
    assert_eq!(
        unavailable_commit(oid('a')),
        format!("<unavailable: {} (possibly GC'ed)>", hex('a'))
    );
}

#[test]
fn test_event_commit_oids() {
    assert_eq!(event_commit_oids(&commit_event('a')), Ok(vec![oid('a')]));
    let rewrite = Event::RewriteEvent {
        timestamp: at(1.0),
        event_tx_id: make_dummy_transaction_id(1),
        old_commit_oid: oid('a'),
        new_commit_oid: oid('b'),
    };
    assert_eq!(event_commit_oids(&rewrite), Ok(vec![oid('a'), oid('b')]));
    assert_eq!(event_commit_oids(&ref_update("HEAD", None, None)), Ok(vec![]));
    assert_eq!(
        event_commit_oids(&ref_update("HEAD", Some(&hex('a')), Some(&hex('b')))),
        Ok(vec![oid('a'), oid('b')])
    );
    assert_eq!(
        event_commit_oids(&ref_update("refs/heads/x", None, Some(&hex('b')))),
        Ok(vec![oid('b')])
    );
    assert_eq!(
        event_commit_oids(&ref_update("refs/heads/x", Some(&hex('a')), None)),
        Ok(vec![oid('a')])
    );
    assert_eq!(
        event_commit_oids(&ref_update("refs/heads/x", Some("short"), Some(&hex('b')))),
        Err(OidError::WrongLength)
    );
    let bad = "g".repeat(40);
    assert_eq!(
        event_commit_oids(&ref_update("refs/heads/x", Some(&hex('a')), Some(&bad))),
        Err(OidError::BadDigit)
    );
}

#[test]
fn test_describe_commit_hide_unhide() {
    let lines = describe_event(&commit_event('a'), vec![StyledString::plain("aaa first")]).unwrap();
    assert_eq!(lines.len(), 2);
    assert_eq!(spans(&lines[0]), plain_spans(&["Commit ", "aaa first"]));
    assert_eq!(lines[0].source(), "Commit aaa first");
    assert_eq!(spans(&lines[1]), plain_spans(&[]));
    let hidden = Event::HideEvent {
        timestamp: at(1.0),
        event_tx_id: make_dummy_transaction_id(1),
        commit_oid: oid('a'),
    };
    let lines = describe_event(&hidden, vec![StyledString::plain("aaa")]).unwrap();
    assert_eq!(spans(&lines[0]), plain_spans(&["Hide commit ", "aaa"]));
    let shown = Event::UnhideEvent {
        timestamp: at(1.0),
        event_tx_id: make_dummy_transaction_id(1),
        commit_oid: oid('a'),
    };
    let lines = describe_event(&shown, vec![StyledString::plain("aaa")]).unwrap();
    assert_eq!(spans(&lines[0]), plain_spans(&["Unhide commit ", "aaa"]));
    assert_eq!(spans(&lines[1]), plain_spans(&[]));
}

#[test]
fn test_describe_keeps_the_spans_of_a_commit() {
    let mut commit = StyledString::plain("abc");
    commit.append(StyledString::styled(" title", Effect::Bold));
    let lines = describe_event(&commit_event('a'), vec![commit]).unwrap();
    assert_eq!(
        spans(&lines[0]),
        vec![
            ("Commit ".to_owned(), false),
            ("abc".to_owned(), false),
            (" title".to_owned(), true)
        ]
    );
}

#[test]
fn test_describe_rewrite() {
    let rewrite = Event::RewriteEvent {
        timestamp: at(1.0),
        event_tx_id: make_dummy_transaction_id(1),
        old_commit_oid: oid('a'),
        new_commit_oid: oid('b'),
    };
    let lines = describe_event(
        &rewrite,
        vec![StyledString::plain("old"), StyledString::plain("new")],
    )
    .unwrap();
    assert_eq!(lines.len(), 2);
    assert_eq!(spans(&lines[0]), plain_spans(&["Rewrite commit ", "old"]));
    assert_eq!(spans(&lines[1]), plain_spans(&["           as ", "new"]));
}

#[test]
fn test_describe_checkouts() {
    let lines = describe_event(
        &ref_update("HEAD", None, Some(&hex('a'))),
        vec![StyledString::plain("aaa")],
    )
    .unwrap();
    assert_eq!(spans(&lines[0]), plain_spans(&["Check out to ", "aaa"]));
    assert_eq!(spans(&lines[1]), plain_spans(&[]));
    let lines = describe_event(
        &ref_update("HEAD", Some(&hex('a')), Some(&hex('b'))),
        vec![StyledString::plain("aaa"), StyledString::plain("bbb")],
    )
    .unwrap();
    assert_eq!(spans(&lines[0]), plain_spans(&["Check out from ", "aaa"]));
    assert_eq!(spans(&lines[1]), plain_spans(&["            to ", "bbb"]));
}

#[test]
fn test_describe_reference_updates() {
    let lines = describe_event(&ref_update("refs/heads/foo", None, None), vec![]).unwrap();
    assert_eq!(spans(&lines[0]), plain_spans(&["Empty event for ", "branch foo"]));
    assert_eq!(
        spans(&lines[1]),
        plain_spans(&[
            "This event should not appear. ",
            "This is a (benign) bug -- ",
            "please report it."
        ])
    );
    let lines = describe_event(&ref_update("HEAD", None, None), vec![]).unwrap();
    assert_eq!(spans(&lines[0]), plain_spans(&["Empty event for ", "ref HEAD"]));
    let lines = describe_event(
        &ref_update("refs/heads/foo", None, Some(&hex('a'))),
        vec![StyledString::plain("aaa")],
    )
    .unwrap();
    assert_eq!(spans(&lines[0]), plain_spans(&["Create ", "branch foo", " at ", "aaa"]));
    assert_eq!(spans(&lines[1]), plain_spans(&[]));
    let lines = describe_event(
        &ref_update("refs/tags/v1", Some(&hex('a')), None),
        vec![StyledString::plain("aaa")],
    )
    .unwrap();
    assert_eq!(spans(&lines[0]), plain_spans(&["Delete ", "ref refs/tags/v1", " at ", "aaa"]));
    let lines = describe_event(
        &ref_update("HEAD", Some(&hex('a')), None),
        vec![StyledString::plain("aaa")],
    )
    .unwrap();
    assert_eq!(spans(&lines[0]), plain_spans(&["Delete ", "ref HEAD", " at ", "aaa"]));
    let lines = describe_event(
        &ref_update("refs/heads/foo", Some(&hex('a')), Some(&hex('b'))),
        vec![StyledString::plain("aaa"), StyledString::plain("bbb")],
    )
    .unwrap();
    assert_eq!(spans(&lines[0]), plain_spans(&["Move ", "branch foo", " from ", "aaa"]));
    assert_eq!(spans(&lines[1]), plain_spans(&["     ", "          ", "   to ", "bbb"]));
    assert_eq!(lines[0].source().find("aaa"), lines[1].source().find("bbb"));
}

#[test]
fn test_describe_indents_by_bytes() {
    let lines = describe_event(
        &ref_update("refs/heads/\u{e9}", Some(&hex('a')), Some(&hex('b'))),
        vec![StyledString::plain("aaa"), StyledString::plain("bbb")],
    )
    .unwrap();
    assert_eq!(spans(&lines[0])[1], ("branch \u{e9}".to_owned(), false));
    assert_eq!(spans(&lines[1])[1], (" ".repeat(9), false));
}

#[test]
fn test_describe_errors() {
    assert_eq!(
        describe_event(&ref_update("refs/heads/foo", Some("1"), Some("2")), vec![]),
        Err(DescribeError::MalformedOid(OidError::WrongLength))
    );
    assert_eq!(
        describe_event(&commit_event('a'), vec![]),
        Err(DescribeError::WrongCommitCount)
    );
    assert_eq!(
        describe_event(
            &commit_event('a'),
            vec![StyledString::plain("a"), StyledString::plain("b")]
        ),
        Err(DescribeError::WrongCommitCount)
    );
    assert_eq!(
        describe_event(&ref_update("HEAD", None, None), vec![StyledString::plain("a")]),
        Err(DescribeError::WrongCommitCount)
    );
}

#[test]
fn test_describe_events_numbered() {
    let events = vec![
        commit_event('a'),
        ref_update("HEAD", Some(&hex('a')), Some(&hex('b'))),
    ];
    let commits = vec![
        vec![StyledString::plain("aaa")],
        vec![StyledString::plain("aaa"), StyledString::plain("bbb")],
    ];
    let lines = describe_events_numbered(&events, commits).unwrap();
    let text: Vec<&str> = lines.iter().map(|line| line.source()).collect();
    assert_eq!(
        text,
        vec![
            "1. Commit aaa",
            "   ",
            "2. Check out from aaa",
            "               to bbb"
        ]
    );
    assert_eq!(spans(&lines[0]), plain_spans(&["1. ", "Commit ", "aaa"]));
    assert_eq!(spans(&lines[1]), plain_spans(&["   "]));
    assert_eq!(spans(&lines[3]), plain_spans(&["   ", "            to ", "bbb"]));
    assert_eq!(describe_events_numbered(&Vec::new(), Vec::new()).unwrap().len(), 0);
}

#[test]
fn test_describe_events_numbered_widens_the_indent() {
    let mut events = Vec::new();
    let mut commits = Vec::new();
    for _ in 0..10 {
        events.push(commit_event('a'));
        commits.push(vec![StyledString::plain("aaa")]);
    }
    let lines = describe_events_numbered(&events, commits).unwrap();
    assert_eq!(lines.len(), 20);
    assert_eq!(lines[18].source(), "10. Commit aaa");
    assert_eq!(lines[19].source(), "    ");
}

#[test]
fn test_describe_events_numbered_errors() {
    let events = vec![
        commit_event('a'),
        ref_update("refs/heads/foo", Some("bad"), None),
        commit_event('b'),
    ];
    let commits = vec![vec![StyledString::plain("aaa")], vec![], vec![]];
    assert_eq!(
        describe_events_numbered(&events, commits),
        Err(DescribeError::MalformedOid(OidError::WrongLength))
    );
    let events = vec![commit_event('a'), commit_event('b')];
    assert_eq!(
        describe_events_numbered(&events, vec![vec![StyledString::plain("aaa")]]),
        Err(DescribeError::WrongCommitCount)
    );
    assert_eq!(
        describe_events_numbered(&events, vec![vec![], vec![StyledString::plain("bbb")]]),
        Err(DescribeError::WrongCommitCount)
    );
}

#[test]
fn test_join() {
    assert_eq!(spans(&join(" ", vec![])), plain_spans(&[]));
    assert_eq!(spans(&join(" ", vec![StyledString::plain("a")])), plain_spans(&["a"]));
    let mut bold = StyledString::styled("b", Effect::Bold);
    bold.append_plain("c");
    let joined = join("\n", vec![StyledString::plain("a"), bold, StyledString::new()]);
    assert_eq!(
        spans(&joined),
        vec![
            ("a".to_owned(), false),
            ("\n".to_owned(), false),
            ("b".to_owned(), true),
            ("c".to_owned(), false),
            ("\n".to_owned(), false)
        ]
    );
    assert_eq!(joined.source(), "a\nbc\n");
}
