//! Hook files: the managed region between two marker lines, and what is written
//! when hooks are installed.

use crate::lines::{
    ends_with_cr, lemma_lines_have_no_newline, lemma_lines_of_concat, lemma_lines_of_line_then,
    line_bounds, lines_of, newline_terminated, no_newline, push_all, push_range, range_equals,
};
use crate::text::{chars_string, str_chars};
use vstd::prelude::*;

verus! {

/// First line of a hook file that this library creates.
pub const SHEBANG: &'static str = "#!/bin/sh";

/// The line that opens the managed region of a hook file.
pub const UPDATE_MARKER_START: &'static str = "## START BRANCHLESS CONFIG";

/// The line that closes the managed region of a hook file.
pub const UPDATE_MARKER_END: &'static str = "## END BRANCHLESS CONFIG";

/// The opening marker with its line feed, the new body, the closing marker with
/// its line feed.
pub open spec fn managed_region(body: Seq<char>) -> Seq<char> {
    UPDATE_MARKER_START@ + seq!['\n'] + body + UPDATE_MARKER_END@ + seq!['\n']
}

/// What is written for `lines`, read with `ignoring` telling whether the reader
/// is inside a managed region. An opening marker is replaced, with everything up
/// to the closing marker, by the managed region around `body`; a closing marker
/// is dropped; any other line outside a region is kept, with a line feed.
pub open spec fn update_lines(lines: Seq<Seq<char>>, body: Seq<char>, ignoring: bool) -> Seq<char>
    decreases lines.len(),
{
    if lines.len() == 0 {
        Seq::empty()
    } else {
        let line = lines[0];
        let rest = lines.drop_first();
        if line == UPDATE_MARKER_START@ {
            managed_region(body) + update_lines(rest, body, true)
        } else if line == UPDATE_MARKER_END@ {
            update_lines(rest, body, false)
        } else if ignoring {
            update_lines(rest, body, true)
        } else {
            line + seq!['\n'] + update_lines(rest, body, false)
        }
    }
}

/// Whether a reader that starts with `ignoring` is inside a managed region after
/// the last of `lines`.
pub open spec fn ends_ignoring(lines: Seq<Seq<char>>, ignoring: bool) -> bool
    decreases lines.len(),
{
    if lines.len() == 0 {
        ignoring
    } else if lines[0] == UPDATE_MARKER_START@ {
        ends_ignoring(lines.drop_first(), true)
    } else if lines[0] == UPDATE_MARKER_END@ {
        ends_ignoring(lines.drop_first(), false)
    } else {
        ends_ignoring(lines.drop_first(), ignoring)
    }
}

/// The hook file `file` with each managed region replaced by one around `body`.
pub open spec fn spec_update_between_lines(file: Seq<char>, body: Seq<char>) -> Seq<char> {
    update_lines(lines_of(file), body, false)
}

/// Whether `file` opens a managed region that it never closes.
pub open spec fn spec_has_unterminated_region(file: Seq<char>) -> bool {
    ends_ignoring(lines_of(file), false)
}

/// The updated hook file, and whether the file ends inside a managed region.
fn update_chars(file: &Vec<char>, body: &Vec<char>) -> (res: (Vec<char>, bool))
    ensures
        res.0@ == spec_update_between_lines(file@, body@),
        res.1 == spec_has_unterminated_region(file@),
{
    let start = str_chars(UPDATE_MARKER_START);
    let end = str_chars(UPDATE_MARKER_END);
    let mut out: Vec<char> = Vec::new();
    let mut ignoring = false;
    let mut pos: usize = 0;
    assert(file@.skip(0) =~= file@);
    while pos < file.len()
        invariant
            pos <= file.len(),
            start@ == UPDATE_MARKER_START@,
            end@ == UPDATE_MARKER_END@,
            out@ + update_lines(lines_of(file@.skip(pos as int)), body@, ignoring)
                == spec_update_between_lines(file@, body@),
            ends_ignoring(lines_of(file@.skip(pos as int)), ignoring)
                == spec_has_unterminated_region(file@),
        decreases file.len() - pos,
    {
        let (line_end, next) = line_bounds(file, pos);
        let ghost before = out@;
        let ghost line = file@.subrange(pos as int, line_end as int);
        let ghost here = lines_of(file@.skip(pos as int));
        let ghost rest = lines_of(file@.skip(next as int));
        assert(here[0] == line);
        assert(here.drop_first() =~= rest);
        if range_equals(file, pos, line_end, &start) {
            ignoring = true;
            push_all(&mut out, &start);
            out.push('\n');
            push_all(&mut out, body);
            push_all(&mut out, &end);
            out.push('\n');
            assert(out@ =~= before + managed_region(body@));
            assert(out@ + update_lines(rest, body@, true) =~= before + (managed_region(body@)
                + update_lines(rest, body@, true)));
        } else if range_equals(file, pos, line_end, &end) {
            ignoring = false;
        } else if !ignoring {
            push_range(&mut out, file, pos, line_end);
            out.push('\n');
            assert(out@ + update_lines(rest, body@, false) =~= before + (line + seq!['\n']
                + update_lines(rest, body@, false)));
        }
        pos = next;
    }
    assert(lines_of(file@.skip(pos as int)).len() == 0);
    assert(out@ + Seq::<char>::empty() =~= out@);
    (out, ignoring)
}

/// Rewrites the hook file `lines`: every region from an opening marker line to
/// the next closing marker line gives way to the markers around `updated_lines`,
/// and every other line is kept, ended by a line feed.
pub fn update_between_lines(lines: &str, updated_lines: &str) -> (new_lines: String)
    ensures
        new_lines@ == spec_update_between_lines(lines@, updated_lines@),
{
    let file = str_chars(lines);
    let body = str_chars(updated_lines);
    let (out, _) = update_chars(&file, &body);
    chars_string(&out)
}

/// Whether the hook file `lines` opens a managed region and never closes it, so
/// that an update replaces everything from the opening marker to the end.
pub fn has_unterminated_region(lines: &str) -> (unterminated: bool)
    ensures
        unterminated == spec_has_unterminated_region(lines@),
{
    let file = str_chars(lines);
    let body: Vec<char> = Vec::new();
    let (_, ignoring) = update_chars(&file, &body);
    ignoring
}

/// Whether `line` is one of the two marker lines.
pub open spec fn is_marker(line: Seq<char>) -> bool {
    line == UPDATE_MARKER_START@ || line == UPDATE_MARKER_END@
}

/// A body that an update can insert and find again: it is empty or ends with a
/// line feed, and none of its lines is a marker.
pub open spec fn body_is_well_formed(body: Seq<char>) -> bool {
    &&& newline_terminated(body)
    &&& forall|i: int| 0 <= i < lines_of(body).len() ==> !is_marker(#[trigger] lines_of(body)[i])
}

/// No line of `file` ends with a carriage return once it has been split off.
pub open spec fn lines_are_trimmed(file: Seq<char>) -> bool {
    forall|i: int| 0 <= i < lines_of(file).len() ==> !ends_with_cr(#[trigger] lines_of(file)[i])
}

/// The lines that an update writes for `lines`: what `update_lines` writes, line
/// by line.
pub open spec fn written_lines(
    lines: Seq<Seq<char>>,
    body_lines: Seq<Seq<char>>,
    ignoring: bool,
) -> Seq<Seq<char>>
    decreases lines.len(),
{
    if lines.len() == 0 {
        Seq::empty()
    } else {
        let line = lines[0];
        let rest = lines.drop_first();
        if line == UPDATE_MARKER_START@ {
            seq![UPDATE_MARKER_START@] + body_lines + seq![UPDATE_MARKER_END@] + written_lines(
                rest,
                body_lines,
                true,
            )
        } else if line == UPDATE_MARKER_END@ {
            written_lines(rest, body_lines, false)
        } else if ignoring {
            written_lines(rest, body_lines, true)
        } else {
            seq![line] + written_lines(rest, body_lines, false)
        }
    }
}

/// The two markers differ, lie on one line each, and end with no carriage return.
pub proof fn lemma_markers()
    ensures
        UPDATE_MARKER_START@ != UPDATE_MARKER_END@,
        no_newline(UPDATE_MARKER_START@),
        no_newline(UPDATE_MARKER_END@),
        !ends_with_cr(UPDATE_MARKER_START@),
        !ends_with_cr(UPDATE_MARKER_END@),
{
    reveal_strlit("## START BRANCHLESS CONFIG");
    reveal_strlit("## END BRANCHLESS CONFIG");
    assert(UPDATE_MARKER_START@.len() == 26);
    assert(UPDATE_MARKER_END@.len() == 24);
}

/// Splitting what an update wrote gives back the lines it wrote.
proof fn lemma_lines_of_update(lines: Seq<Seq<char>>, body: Seq<char>, ignoring: bool)
    requires
        newline_terminated(body),
        forall|i: int| 0 <= i < lines.len() ==> no_newline(#[trigger] lines[i]),
        forall|i: int| 0 <= i < lines.len() ==> !ends_with_cr(#[trigger] lines[i]),
    ensures
        lines_of(update_lines(lines, body, ignoring)) == written_lines(
            lines,
            lines_of(body),
            ignoring,
        ),
    decreases lines.len(),
{
    if lines.len() > 0 {
        let line = lines[0];
        let rest = lines.drop_first();
        assert forall|i: int| 0 <= i < rest.len() implies no_newline(#[trigger] rest[i]) by {
            assert(rest[i] == lines[i + 1]);
        }
        assert forall|i: int| 0 <= i < rest.len() implies !ends_with_cr(#[trigger] rest[i]) by {
            assert(rest[i] == lines[i + 1]);
        }
        lemma_markers();
        let nl = seq!['\n'];
        if line == UPDATE_MARKER_START@ {
            lemma_lines_of_update(rest, body, true);
            let tail = update_lines(rest, body, true);
            let closing = UPDATE_MARKER_END@ + nl + tail;
            lemma_lines_of_line_then(UPDATE_MARKER_END@, tail);
            lemma_lines_of_concat(body, closing);
            lemma_lines_of_line_then(UPDATE_MARKER_START@, body + closing);
            assert(update_lines(lines, body, ignoring) =~= UPDATE_MARKER_START@ + nl + (body
                + closing));
            assert(written_lines(lines, lines_of(body), ignoring) =~= seq![UPDATE_MARKER_START@]
                + (lines_of(body) + (seq![UPDATE_MARKER_END@] + lines_of(tail))));
        } else if line == UPDATE_MARKER_END@ {
            lemma_lines_of_update(rest, body, false);
        } else if ignoring {
            lemma_lines_of_update(rest, body, true);
        } else {
            lemma_lines_of_update(rest, body, false);
            lemma_lines_of_line_then(line, update_lines(rest, body, false));
        }
    }
}

/// Inside a managed region, lines that are no markers are passed over.
proof fn lemma_update_skips(skipped: Seq<Seq<char>>, lines: Seq<Seq<char>>, body: Seq<char>)
    requires
        forall|i: int| 0 <= i < skipped.len() ==> !is_marker(#[trigger] skipped[i]),
    ensures
        update_lines(skipped + lines, body, true) == update_lines(lines, body, true),
    decreases skipped.len(),
{
    if skipped.len() == 0 {
        assert(skipped + lines =~= lines);
    } else {
        let all = skipped + lines;
        assert(all[0] == skipped[0]);
        assert(!is_marker(skipped[0]));
        let fewer = skipped.drop_first();
        assert(all.drop_first() =~= fewer + lines);
        assert forall|i: int| 0 <= i < fewer.len() implies !is_marker(#[trigger] fewer[i]) by {
            assert(fewer[i] == skipped[i + 1]);
        }
        lemma_update_skips(fewer, lines, body);
    }
}

/// An update of the lines that an update wrote writes the same again.
proof fn lemma_update_of_written(lines: Seq<Seq<char>>, body: Seq<char>, ignoring: bool)
    requires
        forall|i: int| 0 <= i < lines_of(body).len() ==> !is_marker(#[trigger] lines_of(body)[i]),
    ensures
        update_lines(written_lines(lines, lines_of(body), ignoring), body, false) == update_lines(
            lines,
            body,
            ignoring,
        ),
    decreases lines.len(),
{
    if lines.len() > 0 {
        let line = lines[0];
        let rest = lines.drop_first();
        let body_lines = lines_of(body);
        lemma_markers();
        if line == UPDATE_MARKER_START@ {
            lemma_update_of_written(rest, body, true);
            let tail = written_lines(rest, body_lines, true);
            let closing = seq![UPDATE_MARKER_END@] + tail;
            let written = written_lines(lines, body_lines, ignoring);
            assert(written =~= seq![UPDATE_MARKER_START@] + (body_lines + closing));
            assert(written[0] == UPDATE_MARKER_START@);
            assert(written.drop_first() =~= body_lines + closing);
            lemma_update_skips(body_lines, closing, body);
            assert(closing[0] == UPDATE_MARKER_END@);
            assert(closing.drop_first() =~= tail);
        } else if line == UPDATE_MARKER_END@ {
            lemma_update_of_written(rest, body, false);
        } else if ignoring {
            lemma_update_of_written(rest, body, true);
        } else {
            lemma_update_of_written(rest, body, false);
            let written = written_lines(lines, body_lines, ignoring);
            assert(written[0] == line);
            assert(written.drop_first() =~= written_lines(rest, body_lines, false));
        }
    }
}

/// What an update writes for lines that lie on one line each and end with no
/// carriage return is left as it is by a second update with the same body.
pub proof fn lemma_update_of_updated_lines(lines: Seq<Seq<char>>, body: Seq<char>)
    requires
        body_is_well_formed(body),
        forall|i: int| 0 <= i < lines.len() ==> no_newline(#[trigger] lines[i]),
        forall|i: int| 0 <= i < lines.len() ==> !ends_with_cr(#[trigger] lines[i]),
    ensures
        spec_update_between_lines(update_lines(lines, body, false), body) == update_lines(
            lines,
            body,
            false,
        ),
{
    lemma_lines_of_update(lines, body, false);
    lemma_update_of_written(lines, body, false);
}

/// Installing the same body twice changes nothing the second time: an update of
/// an updated file is that file again. This holds for a well-formed body and a
/// file whose lines end with no stray carriage return.
pub proof fn lemma_update_is_idempotent(file: Seq<char>, body: Seq<char>)
    requires
        body_is_well_formed(body),
        lines_are_trimmed(file),
    ensures
        spec_update_between_lines(spec_update_between_lines(file, body), body)
            == spec_update_between_lines(file, body),
{
    lemma_lines_have_no_newline(file);
    lemma_update_of_updated_lines(lines_of(file), body);
}

} // verus!
