//! Describing events to the user, in styled lines.

use crate::event::{event_views, Event, EventView, HEAD};
use crate::lines::{push_all, push_range, range_equals};
use crate::oid::{spec_oid_hex, spec_parse_oid, Oid, OidError};
use crate::styled::{styled_append, styled_append_plain, styled_empty, styled_plain, styled_spans};
use crate::text::{chars_string, push_decimal, spec_decimal, str_chars, str_equals};
use cursive::utils::markup::StyledString;
use vstd::prelude::*;

verus! {

/// The spans of a styled line.
pub type Spans = Seq<(Seq<char>, bool)>;

/// Why an event could not be described.
#[derive(Clone, Copy, Debug, PartialEq, Eq, Structural)]
pub enum DescribeError {
    /// A reference target of the event is no commit identifier.
    MalformedOid(OidError),
    /// The rendered commits are not as many as the event names.
    WrongCommitCount,
}

/// One span without any effect.
pub open spec fn plain(text: Seq<char>) -> Spans {
    seq![(text, false)]
}

/// `count` blanks.
pub open spec fn blanks(count: nat) -> Seq<char> {
    Seq::new(count, |i: int| ' ')
}

/// The number of bytes that `text` takes as a string.
pub open spec fn byte_len(text: Seq<char>) -> usize {
    vstd::utf8::encode_utf8(text).len() as usize
}

/// The spans of each line of `lines`.
pub open spec fn line_spans(lines: Seq<StyledString>) -> Seq<Spans> {
    lines.map_values(|line: StyledString| styled_spans(line))
}

/// How a reference is called in a description: a branch by its short name, any
/// other reference by its full name.
pub open spec fn spec_render_ref_name(ref_name: Seq<char>) -> Seq<char> {
    let prefix = "refs/heads/"@;
    if ref_name.len() >= prefix.len() && ref_name.take(prefix.len() as int) == prefix {
        "branch "@ + ref_name.skip(prefix.len() as int)
    } else {
        "ref "@ + ref_name
    }
}

/// How a reference is called in a description: `branch` and the short name for
/// a reference under `refs/heads/`, `ref` and the full name for any other.
pub fn render_ref_name(ref_name: &str) -> (rendered: String)
    ensures
        rendered@ == spec_render_ref_name(ref_name@),
{
    let name = str_chars(ref_name);
    let prefix = str_chars("refs/heads/");
    let mut out: Vec<char>;
    if name.len() >= prefix.len() && range_equals(&name, 0, prefix.len(), &prefix) {
        out = str_chars("branch ");
        push_range(&mut out, &name, prefix.len(), name.len());
        assert(name@.subrange(0, prefix.len() as int) =~= name@.take(prefix.len() as int));
        assert(name@.subrange(prefix.len() as int, name.len() as int) =~= name@.skip(
            prefix.len() as int,
        ));
    } else {
        out = str_chars("ref ");
        push_all(&mut out, &name);
        if name.len() >= prefix.len() {
            assert(name@.subrange(0, prefix.len() as int) =~= name@.take(prefix.len() as int));
        }
    }
    chars_string(&out)
}

/// What stands for a commit that the repository no longer has.
pub open spec fn spec_unavailable_commit(oid: Oid) -> Seq<char> {
    "<unavailable: "@ + spec_oid_hex(oid) + " (possibly GC'ed)>"@
}

/// What stands for a commit that the repository no longer has.
pub fn unavailable_commit(oid: Oid) -> (text: String)
    ensures
        text@ == spec_unavailable_commit(oid),
{
    let mut out = str_chars("<unavailable: ");
    let hex = oid.to_hex();
    let digits = str_chars(hex.as_str());
    push_all(&mut out, &digits);
    let tail = str_chars(" (possibly GC'ed)>");
    push_all(&mut out, &tail);
    chars_string(&out)
}

/// The commits that a description of `event` shows, in the order of showing:
/// the commit of a commit, hide or unhide event; the old and the new commit of
/// a rewrite; the old and the new target of a reference update, as far as it
/// has them. A target that is no commit identifier is an error, the old target
/// first.
pub open spec fn spec_event_commit_oids(event: EventView) -> Result<Seq<Oid>, OidError> {
    match event {
        EventView::Commit { commit_oid, .. } => Ok(seq![commit_oid]),
        EventView::Hide { commit_oid, .. } => Ok(seq![commit_oid]),
        EventView::Unhide { commit_oid, .. } => Ok(seq![commit_oid]),
        EventView::Rewrite { old_commit_oid, new_commit_oid, .. } => Ok(
            seq![old_commit_oid, new_commit_oid],
        ),
        EventView::RefUpdate { old_ref, new_ref, .. } => match (old_ref, new_ref) {
            (None, None) => Ok(Seq::empty()),
            (None, Some(new)) => match spec_parse_oid(new) {
                Ok(oid) => Ok(seq![oid]),
                Err(error) => Err(error),
            },
            (Some(old), None) => match spec_parse_oid(old) {
                Ok(oid) => Ok(seq![oid]),
                Err(error) => Err(error),
            },
            (Some(old), Some(new)) => match spec_parse_oid(old) {
                Ok(old_oid) => match spec_parse_oid(new) {
                    Ok(new_oid) => Ok(seq![old_oid, new_oid]),
                    Err(error) => Err(error),
                },
                Err(error) => Err(error),
            },
        },
    }
}

/// The commits that a description of `event` shows, in the order of showing.
pub fn event_commit_oids(event: &Event) -> (oids: Result<Vec<Oid>, OidError>)
    ensures
        match oids {
            Ok(found) => spec_event_commit_oids(event@) == Ok::<Seq<Oid>, OidError>(found@),
            Err(error) => spec_event_commit_oids(event@) == Err::<Seq<Oid>, OidError>(error),
        },
{
    let mut found: Vec<Oid> = Vec::new();
    match event {
        Event::CommitEvent { commit_oid, .. } => {
            found.push(*commit_oid);
        },
        Event::HideEvent { commit_oid, .. } => {
            found.push(*commit_oid);
        },
        Event::UnhideEvent { commit_oid, .. } => {
            found.push(*commit_oid);
        },
        Event::RewriteEvent { old_commit_oid, new_commit_oid, .. } => {
            found.push(*old_commit_oid);
            found.push(*new_commit_oid);
        },
        Event::RefUpdateEvent { old_ref, new_ref, .. } => {
            match old_ref {
                Some(old) => match Oid::parse(old.as_str()) {
                    Ok(oid) => {
                        found.push(oid);
                    },
                    Err(error) => {
                        return Err(error);
                    },
                },
                None => {},
            }
            match new_ref {
                Some(new) => match Oid::parse(new.as_str()) {
                    Ok(oid) => {
                        found.push(oid);
                    },
                    Err(error) => {
                        return Err(error);
                    },
                },
                None => {},
            }
        },
    }
    assert(spec_event_commit_oids(event@) == Ok::<Seq<Oid>, OidError>(found@)) by {
        if let Ok(expected) = spec_event_commit_oids(event@) {
            assert(expected =~= found@);
        }
    }
    Ok(found)
}

/// The two lines that describe `event`, given the spans of its commits as
/// rendered, in the order of `spec_event_commit_oids`.
pub open spec fn spec_describe_event(event: EventView, commits: Seq<Spans>) -> Seq<Spans> {
    match event {
        EventView::Commit { .. } => seq![plain("Commit "@) + commits[0], Seq::empty()],
        EventView::Hide { .. } => seq![plain("Hide commit "@) + commits[0], Seq::empty()],
        EventView::Unhide { .. } => seq![plain("Unhide commit "@) + commits[0], Seq::empty()],
        EventView::Rewrite { .. } => seq![
            plain("Rewrite commit "@) + commits[0],
            plain("           as "@) + commits[1],
        ],
        EventView::RefUpdate { ref_name, old_ref, new_ref, .. } => {
            let name = spec_render_ref_name(ref_name);
            match (old_ref, new_ref) {
                (None, None) => seq![
                    plain("Empty event for "@) + plain(name),
                    plain("This event should not appear. "@) + plain(
                        "This is a (benign) bug -- "@,
                    ) + plain("please report it."@),
                ],
                (None, Some(_)) => if ref_name == HEAD@ {
                    seq![plain("Check out to "@) + commits[0], Seq::empty()]
                } else {
                    seq![
                        plain("Create "@) + plain(name) + plain(" at "@) + commits[0],
                        Seq::empty(),
                    ]
                },
                (Some(_), None) => seq![
                    plain("Delete "@) + plain(name) + plain(" at "@) + commits[0],
                    Seq::empty(),
                ],
                (Some(_), Some(_)) => if ref_name == HEAD@ {
                    seq![
                        plain("Check out from "@) + commits[0],
                        plain("            to "@) + commits[1],
                    ]
                } else {
                    seq![
                        plain("Move "@) + plain(name) + plain(" from "@) + commits[0],
                        plain("     "@) + plain(blanks(byte_len(name) as nat)) + plain(
                            "   to "@,
                        ) + commits[1],
                    ]
                },
            }
        },
    }
}

/// A string of `count` blanks.
fn blank_string(count: usize) -> (text: String)
    ensures
        text@ == blanks(count as nat),
{
    let mut out: Vec<char> = Vec::new();
    let mut i: usize = 0;
    while i < count
        invariant
            i <= count,
            out@ == blanks(i as nat),
        decreases count - i,
    {
        out.push(' ');
        i += 1;
        assert(out@ =~= blanks(i as nat));
    }
    chars_string(&out)
}

/// A line of one plain span and then the spans of `rest`.
fn labelled(label: &str, rest: StyledString) -> (line: StyledString)
    ensures
        styled_spans(line) == plain(label@) + styled_spans(rest),
{
    let mut line = styled_plain(label);
    styled_append(&mut line, rest);
    line
}

/// A line of three plain spans and then the spans of `rest`.
fn labelled_ref(before: &str, name: &str, after: &str, rest: StyledString) -> (line: StyledString)
    ensures
        styled_spans(line) == plain(before@) + plain(name@) + plain(after@) + styled_spans(rest),
{
    let mut line = styled_plain(before);
    styled_append_plain(&mut line, name);
    styled_append_plain(&mut line, after);
    styled_append(&mut line, rest);
    assert(styled_spans(line) =~= plain(before@) + plain(name@) + plain(after@) + styled_spans(
        rest,
    ));
    line
}

/// The two lines `first` and `second`.
fn two_lines(first: StyledString, second: StyledString) -> (lines: Vec<StyledString>)
    ensures
        line_spans(lines@) == seq![styled_spans(first), styled_spans(second)],
{
    let mut lines: Vec<StyledString> = Vec::new();
    lines.push(first);
    lines.push(second);
    assert(line_spans(lines@) =~= seq![styled_spans(first), styled_spans(second)]);
    lines
}

/// Describes `event` in two lines. `commits` holds the commits that the event
/// names, rendered, in the order in which `event_commit_oids` gives them.
///
/// Fails if a reference target of the event is no commit identifier, and else
/// if `commits` does not hold one text for each commit.
pub fn describe_event(event: &Event, commits: Vec<StyledString>) -> (described: Result<
    Vec<StyledString>,
    DescribeError,
>)
    ensures
        match spec_event_commit_oids(event@) {
            Err(error) => described == Err::<Vec<StyledString>, DescribeError>(
                DescribeError::MalformedOid(error),
            ),
            Ok(oids) => if oids.len() != commits.len() {
                described == Err::<Vec<StyledString>, DescribeError>(
                    DescribeError::WrongCommitCount,
                )
            } else {
                &&& described is Ok
                &&& line_spans(described->Ok_0@) == spec_describe_event(
                    event@,
                    line_spans(commits@),
                )
            },
        },
{
    let oids = match event_commit_oids(event) {
        Ok(oids) => oids,
        Err(error) => {
            return Err(DescribeError::MalformedOid(error));
        },
    };
    if oids.len() != commits.len() {
        return Err(DescribeError::WrongCommitCount);
    }
    let ghost given = line_spans(commits@);
    let mut commits = commits;
    let second = if commits.len() == 2 {
        match commits.pop() {
            Some(text) => text,
            None => styled_empty(),
        }
    } else {
        styled_empty()
    };
    let first = if commits.len() == 1 {
        match commits.pop() {
            Some(text) => text,
            None => styled_empty(),
        }
    } else {
        styled_empty()
    };
    assert(given.len() >= 1 ==> styled_spans(first) == given[0]);
    assert(given.len() == 2 ==> styled_spans(second) == given[1]);
    let lines = match event {
        Event::CommitEvent { .. } => two_lines(labelled("Commit ", first), styled_empty()),
        Event::HideEvent { .. } => two_lines(labelled("Hide commit ", first), styled_empty()),
        Event::UnhideEvent { .. } => two_lines(labelled("Unhide commit ", first), styled_empty()),
        Event::RewriteEvent { .. } => two_lines(
            labelled("Rewrite commit ", first),
            labelled("           as ", second),
        ),
        Event::RefUpdateEvent { ref_name, old_ref, new_ref, .. } => {
            let name = render_ref_name(ref_name.as_str());
            let is_head = str_equals(ref_name.as_str(), HEAD);
            match (old_ref, new_ref) {
                (None, None) => {
                    let line = labelled("Empty event for ", styled_plain(name.as_str()));
                    let mut note = styled_plain("This event should not appear. ");
                    styled_append_plain(&mut note, "This is a (benign) bug -- ");
                    styled_append_plain(&mut note, "please report it.");
                    assert(styled_spans(note) =~= plain("This event should not appear. "@) + plain(
                        "This is a (benign) bug -- "@,
                    ) + plain("please report it."@));
                    two_lines(line, note)
                },
                (None, Some(_)) => {
                    if is_head {
                        two_lines(labelled("Check out to ", first), styled_empty())
                    } else {
                        two_lines(
                            labelled_ref("Create ", name.as_str(), " at ", first),
                            styled_empty(),
                        )
                    }
                },
                (Some(_), None) => two_lines(
                    labelled_ref("Delete ", name.as_str(), " at ", first),
                    styled_empty(),
                ),
                (Some(_), Some(_)) => {
                    if is_head {
                        two_lines(
                            labelled("Check out from ", first),
                            labelled("            to ", second),
                        )
                    } else {
                        let indent = blank_string(name.as_str().len());
                        two_lines(
                            labelled_ref("Move ", name.as_str(), " from ", first),
                            labelled_ref("     ", indent.as_str(), "   to ", second),
                        )
                    }
                },
            }
        },
    };
    assert(line_spans(lines@) =~= spec_describe_event(event@, given));
    Ok(lines)
}

/// What stands before a line of the description of the event with the number
/// `number`: the number, a full stop and a blank before the first line, as many
/// blanks before any other.
pub open spec fn numbered_prefix(number: nat, first: bool) -> Seq<char> {
    if first {
        spec_decimal(number) + ". "@
    } else {
        blanks(spec_decimal(number).len() + 2)
    }
}

/// The lines `lines` of the event with the number `number`, each behind its
/// prefix.
pub open spec fn numbered_lines(number: nat, lines: Seq<Spans>) -> Seq<Spans> {
    Seq::new(lines.len(), |j: int| plain(numbered_prefix(number, j == 0)) + lines[j])
}

/// The descriptions of `events`, numbered from `from + 1`, one after the other;
/// the first error, if an event cannot be described.
pub open spec fn spec_describe_events_numbered(
    events: Seq<EventView>,
    commits: Seq<Seq<Spans>>,
    from: nat,
) -> Result<Seq<Spans>, DescribeError>
    decreases events.len() - from,
{
    if from >= events.len() {
        Ok(Seq::empty())
    } else {
        match spec_event_commit_oids(events[from as int]) {
            Err(error) => Err(DescribeError::MalformedOid(error)),
            Ok(oids) => if from >= commits.len() || oids.len() != commits[from as int].len() {
                Err(DescribeError::WrongCommitCount)
            } else {
                match spec_describe_events_numbered(events, commits, from + 1) {
                    Err(error) => Err(error),
                    Ok(rest) => Ok(
                        numbered_lines(
                            from + 1,
                            spec_describe_event(events[from as int], commits[from as int]),
                        ) + rest,
                    ),
                }
            },
        }
    }
}

/// The spans of the rendered commits of each event.
pub open spec fn commit_spans(commits: Seq<Vec<StyledString>>) -> Seq<Seq<Spans>> {
    commits.map_values(|texts: Vec<StyledString>| line_spans(texts@))
}

/// The prefix of a line of the event with the number `number`.
fn numbered_prefix_string(number: usize, first: bool) -> (prefix: String)
    ensures
        prefix@ == numbered_prefix(number as nat, first),
{
    let mut out: Vec<char> = Vec::new();
    push_decimal(&mut out, number as u64);
    assert(out@ =~= spec_decimal(number as nat));
    if first {
        let tail = str_chars(". ");
        push_all(&mut out, &tail);
        chars_string(&out)
    } else {
        let width = out.len();
        proof {
            reveal_strlit(". ");
        }
        if width > usize::MAX - 2 {
            // A number has far fewer digits than that.
            let mut text = blank_string(width);
            text.push(' ');
            text.push(' ');
            assert(text@ =~= blanks(width as nat + 2));
            text
        } else {
            blank_string(width + 2)
        }
    }
}

/// Puts the number of an event before its first line, and blanks of the same
/// width before its other lines.
fn number_lines(number: usize, lines: Vec<StyledString>) -> (numbered: Vec<StyledString>)
    ensures
        line_spans(numbered@) == numbered_lines(number as nat, line_spans(lines@)),
{
    let ghost given = line_spans(lines@);
    let mut lines = lines;
    let mut reversed: Vec<StyledString> = Vec::new();
    while lines.len() > 0
        invariant
            lines.len() + reversed.len() == given.len(),
            forall|k: int| 0 <= k < lines.len() ==> styled_spans(#[trigger] lines[k]) == given[k],
            forall|k: int|
                0 <= k < reversed.len() ==> styled_spans(#[trigger] reversed[k]) == given[given.len()
                    - 1 - k],
        decreases lines.len(),
    {
        match lines.pop() {
            Some(line) => {
                reversed.push(line);
            },
            None => {},
        }
    }
    let mut numbered: Vec<StyledString> = Vec::new();
    while reversed.len() > 0
        invariant
            numbered.len() + reversed.len() == given.len(),
            forall|k: int|
                0 <= k < reversed.len() ==> styled_spans(#[trigger] reversed[k]) == given[given.len()
                    - 1 - k],
            forall|k: int|
                0 <= k < numbered.len() ==> styled_spans(#[trigger] numbered[k]) == numbered_lines(
                    number as nat,
                    given,
                )[k],
        decreases reversed.len(),
    {
        let at = numbered.len();
        match reversed.pop() {
            Some(line) => {
                let prefix = numbered_prefix_string(number, at == 0);
                numbered.push(labelled(prefix.as_str(), line));
            },
            None => {},
        }
    }
    assert(line_spans(numbered@) =~= numbered_lines(number as nat, given));
    numbered
}

/// Describes `events` one after the other, numbered from 1. `commits` holds,
/// for each event, its commits as rendered.
///
/// Fails with the error of the first event that cannot be described: one whose
/// reference target is no commit identifier, or one for which `commits` does
/// not hold one text for each of its commits.
pub fn describe_events_numbered(events: &Vec<Event>, commits: Vec<Vec<StyledString>>) -> (described:
    Result<Vec<StyledString>, DescribeError>)
    ensures
        match spec_describe_events_numbered(event_views(events@), commit_spans(commits@), 0) {
            Err(error) => described == Err::<Vec<StyledString>, DescribeError>(error),
            Ok(lines) => described is Ok && line_spans(described->Ok_0@) == lines,
        },
{
    let ghost views = event_views(events@);
    let ghost given = commit_spans(commits@);
    let mut commits = commits;
    while commits.len() > events.len()
        invariant
            commits.len() <= given.len(),
            commits.len() == given.len() || commits.len() >= events.len(),
            forall|k: int|
                0 <= k < commits.len() ==> line_spans((#[trigger] commits[k])@) == given[k],
        decreases commits.len(),
    {
        commits.pop();
    }
    let mut rest: Result<Vec<StyledString>, DescribeError> = Ok(Vec::new());
    let mut i: usize = events.len();
    assert(line_spans(Seq::<StyledString>::empty()) =~= Seq::<Spans>::empty());
    while i > 0
        invariant
            i <= events.len(),
            views == event_views(events@),
            commits.len() <= i,
            commits.len() <= given.len(),
            commits.len() == i || commits.len() == given.len(),
            forall|k: int|
                0 <= k < commits.len() ==> line_spans((#[trigger] commits[k])@) == given[k],
            match spec_describe_events_numbered(views, given, i as nat) {
                Err(error) => rest == Err::<Vec<StyledString>, DescribeError>(error),
                Ok(lines) => rest is Ok && line_spans(rest->Ok_0@) == lines,
            },
        decreases i,
    {
        i -= 1;
        let event = &events[i];
        assert(event@ == views[i as int]);
        let texts: Option<Vec<StyledString>> = if commits.len() > i {
            commits.pop()
        } else {
            None
        };
        rest = match texts {
            None => match event_commit_oids(event) {
                Err(error) => Err(DescribeError::MalformedOid(error)),
                Ok(_) => Err(DescribeError::WrongCommitCount),
            },
            Some(texts) => {
                assert(line_spans(texts@) == given[i as int]);
                match describe_event(event, texts) {
                    Err(error) => Err(error),
                    Ok(lines) => match rest {
                        Err(error) => Err(error),
                        Ok(mut later) => {
                            let mut numbered = number_lines(i + 1, lines);
                            let ghost front = line_spans(numbered@);
                            let ghost back = line_spans(later@);
                            numbered.append(&mut later);
                            assert(line_spans(numbered@) =~= front + back);
                            Ok(numbered)
                        },
                    },
                }
            },
        };
    }
    rest
}

/// The spans of `parts` one after the other, with one plain span that holds
/// `delimiter` between each two.
pub open spec fn spec_join(delimiter: Seq<char>, parts: Seq<Spans>) -> Spans
    decreases parts.len(),
{
    if parts.len() == 0 {
        Seq::empty()
    } else if parts.len() == 1 {
        parts[0]
    } else {
        spec_join(delimiter, parts.drop_last()) + plain(delimiter) + parts.last()
    }
}

/// Joins styled texts into one, with `delimiter` between each two: lines into
/// a text with line feeds, descriptions into a line with blanks.
pub fn join(delimiter: &str, parts: Vec<StyledString>) -> (joined: StyledString)
    ensures
        styled_spans(joined) == spec_join(delimiter@, line_spans(parts@)),
{
    let ghost given = line_spans(parts@);
    let mut parts = parts;
    let mut turned: Vec<StyledString> = Vec::new();
    while parts.len() > 0
        invariant
            parts.len() + turned.len() == given.len(),
            forall|k: int| 0 <= k < parts.len() ==> styled_spans(#[trigger] parts[k]) == given[k],
            forall|k: int|
                0 <= k < turned.len() ==> styled_spans(#[trigger] turned[k]) == given[given.len() - 1
                    - k],
        decreases parts.len(),
    {
        match parts.pop() {
            Some(part) => {
                turned.push(part);
            },
            None => {},
        }
    }
    let mut joined = styled_empty();
    let count = turned.len();
    assert(given.take(0) =~= Seq::<Spans>::empty());
    while turned.len() > 0
        invariant
            turned.len() <= given.len(),
            count == given.len(),
            forall|k: int|
                0 <= k < turned.len() ==> styled_spans(#[trigger] turned[k]) == given[given.len() - 1
                    - k],
            styled_spans(joined) == spec_join(delimiter@, given.take(given.len() - turned.len())),
        decreases turned.len(),
    {
        let ghost at = given.len() - turned.len();
        let ghost before = styled_spans(joined);
        let is_first = turned.len() == count;
        match turned.pop() {
            Some(part) => {
                proof {
                    assert(styled_spans(part) == given[at]);
                    assert(given.take(at + 1).drop_last() =~= given.take(at));
                    assert(given.take(at + 1).last() == given[at]);
                    assert(given.take(at + 1)[0] == given[0]);
                }
                if is_first {
                    joined = part;
                } else {
                    styled_append_plain(&mut joined, delimiter);
                    styled_append(&mut joined, part);
                    assert(styled_spans(joined) =~= before + plain(delimiter@) + given[at]);
                }
            },
            None => {},
        }
    }
    assert(given.take(given.len() as int) =~= given);
    joined
}

} // verus!
