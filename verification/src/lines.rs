//! Splitting text into lines, and small operations on character vectors.

use vstd::prelude::*;

verus! {

/// The position of the first line feed in `s`, or `s.len()` if there is none.
pub open spec fn first_newline(s: Seq<char>) -> nat
    decreases s.len(),
{
    if s.len() == 0 || s[0] == '\n' {
        0
    } else {
        1 + first_newline(s.drop_first())
    }
}

/// `s` without one trailing carriage return, if it has one.
pub open spec fn strip_cr(s: Seq<char>) -> Seq<char> {
    if s.len() > 0 && s.last() == '\r' {
        s.drop_last()
    } else {
        s
    }
}

/// The lines of `s`. A line ends at a line feed; the line feed, and a carriage
/// return directly before it, are not part of the line. Text after the last line
/// feed is a line of its own, kept as it is, unless it is empty.
pub open spec fn lines_of(s: Seq<char>) -> Seq<Seq<char>>
    decreases s.len(),
{
    if s.len() == 0 {
        Seq::empty()
    } else {
        let n = first_newline(s) as int;
        if n >= s.len() {
            seq![s]
        } else {
            seq![strip_cr(s.take(n))] + lines_of(s.skip(n + 1))
        }
    }
}

/// No character of `s` is a line feed.
pub open spec fn no_newline(s: Seq<char>) -> bool {
    forall|i: int| 0 <= i < s.len() ==> s[i] != '\n'
}

/// `s` is empty or ends with a line feed.
pub open spec fn newline_terminated(s: Seq<char>) -> bool {
    s.len() == 0 || s.last() == '\n'
}

/// `s` ends with a carriage return.
pub open spec fn ends_with_cr(s: Seq<char>) -> bool {
    s.len() > 0 && s.last() == '\r'
}

/// The first line feed lies in the text or at its end, and nothing before it is
/// a line feed.
pub proof fn lemma_first_newline_bounds(s: Seq<char>)
    ensures
        first_newline(s) <= s.len(),
        first_newline(s) < s.len() ==> s[first_newline(s) as int] == '\n',
        forall|i: int| 0 <= i < first_newline(s) ==> s[i] != '\n',
    decreases s.len(),
{
    if s.len() == 0 || s[0] == '\n' {
    } else {
        let t = s.drop_first();
        lemma_first_newline_bounds(t);
        assert forall|i: int| 0 <= i < first_newline(s) implies s[i] != '\n' by {
            if i > 0 {
                assert(s[i] == t[i - 1]);
            }
        }
    }
}

/// The first line feed is at `n` when `n` holds one and nothing before it does,
/// or when `n` is the length and `s` holds none.
pub proof fn lemma_first_newline_is(s: Seq<char>, n: int)
    requires
        0 <= n <= s.len(),
        forall|i: int| 0 <= i < n ==> s[i] != '\n',
        n < s.len() ==> s[n] == '\n',
    ensures
        first_newline(s) == n,
{
    lemma_first_newline_bounds(s);
    let m = first_newline(s) as int;
    if m < n {
        assert(s[m] == '\n');
    } else if m > n {
        assert(s[n] != '\n');
    }
}

/// Lines hold no line feed.
pub proof fn lemma_lines_have_no_newline(s: Seq<char>)
    ensures
        forall|i: int| 0 <= i < lines_of(s).len() ==> no_newline(#[trigger] lines_of(s)[i]),
    decreases s.len(),
{
    if s.len() == 0 {
    } else {
        lemma_first_newline_bounds(s);
        let n = first_newline(s) as int;
        if n >= s.len() {
            assert(no_newline(s));
        } else {
            let rest = s.skip(n + 1);
            lemma_lines_have_no_newline(rest);
            let head = strip_cr(s.take(n));
            assert(no_newline(head));
            assert forall|i: int| 0 <= i < lines_of(s).len() implies no_newline(
                #[trigger] lines_of(s)[i],
            ) by {
                if i > 0 {
                    assert(lines_of(s)[i] == lines_of(rest)[i - 1]);
                }
            }
        }
    }
}

/// A line that is followed by a line feed and more text is the first line of the
/// whole, and the lines of the rest follow it.
pub proof fn lemma_lines_of_line_then(line: Seq<char>, rest: Seq<char>)
    requires
        no_newline(line),
        !ends_with_cr(line),
    ensures
        lines_of(line + seq!['\n'] + rest) == seq![line] + lines_of(rest),
{
    let s = line + seq!['\n'] + rest;
    let n = line.len() as int;
    assert(s[n] == '\n');
    assert forall|i: int| 0 <= i < n implies s[i] != '\n' by {
        assert(s[i] == line[i]);
    }
    lemma_first_newline_is(s, n);
    assert(s.take(n) =~= line);
    assert(s.skip(n + 1) =~= rest);
}

/// The lines of text that ends with a line feed, followed by more text, are the
/// lines of the one and then the lines of the other.
pub proof fn lemma_lines_of_concat(a: Seq<char>, b: Seq<char>)
    requires
        newline_terminated(a),
    ensures
        lines_of(a + b) == lines_of(a) + lines_of(b),
    decreases a.len(),
{
    if a.len() == 0 {
        assert(a + b =~= b);
        assert(lines_of(a) + lines_of(b) =~= lines_of(b));
    } else {
        let s = a + b;
        lemma_first_newline_bounds(a);
        let n = first_newline(a) as int;
        if n >= a.len() {
            assert(a[a.len() - 1] != '\n');
        }
        assert(s[n] == a[n]);
        assert forall|i: int| 0 <= i < n implies s[i] != '\n' by {
            assert(s[i] == a[i]);
        }
        lemma_first_newline_is(s, n);
        assert(s.take(n) =~= a.take(n));
        let a_rest = a.skip(n + 1);
        assert(s.skip(n + 1) =~= a_rest + b);
        if a_rest.len() > 0 {
            assert(a_rest.last() == a.last());
        }
        lemma_lines_of_concat(a_rest, b);
        assert(lines_of(s) =~= lines_of(a) + lines_of(b));
    }
}

/// Whether `text[from..to]` holds exactly the characters of `word`.
pub(crate) fn range_equals(text: &Vec<char>, from: usize, to: usize, word: &Vec<char>) -> (same: bool)
    requires
        from <= to <= text.len(),
    ensures
        same == (text@.subrange(from as int, to as int) == word@),
{
    if to - from != word.len() {
        return false;
    }
    let mut i: usize = 0;
    while i < word.len()
        invariant
            from <= to <= text.len(),
            to - from == word.len(),
            i <= word.len(),
            forall|k: int| 0 <= k < i ==> text@[from + k] == word@[k],
        decreases word.len() - i,
    {
        if text[from + i] != word[i] {
            assert(text@.subrange(from as int, to as int)[i as int] != word@[i as int]);
            return false;
        }
        i += 1;
    }
    assert(text@.subrange(from as int, to as int) =~= word@);
    true
}

/// Appends `text[from..to]` to `out`.
pub(crate) fn push_range(out: &mut Vec<char>, text: &Vec<char>, from: usize, to: usize)
    requires
        from <= to <= text.len(),
    ensures
        final(out)@ == old(out)@ + text@.subrange(from as int, to as int),
{
    let mut i: usize = from;
    while i < to
        invariant
            from <= i <= to <= text.len(),
            out@ == old(out)@ + text@.subrange(from as int, i as int),
        decreases to - i,
    {
        out.push(text[i]);
        i += 1;
        assert(out@ =~= old(out)@ + text@.subrange(from as int, i as int));
    }
}

/// Appends all of `text` to `out`.
pub(crate) fn push_all(out: &mut Vec<char>, text: &Vec<char>)
    ensures
        final(out)@ == old(out)@ + text@,
{
    push_range(out, text, 0, text.len());
    assert(text@.subrange(0, text@.len() as int) =~= text@);
}

/// Where the line that starts at `from` stops: the end of its content, and the
/// start of the next line.
pub(crate) fn line_bounds(text: &Vec<char>, from: usize) -> (bounds: (usize, usize))
    requires
        from < text.len(),
    ensures
        from <= bounds.0 <= bounds.1 <= text.len(),
        from < bounds.1,
        lines_of(text@.skip(from as int)) == seq![text@.subrange(from as int, bounds.0 as int)]
            + lines_of(text@.skip(bounds.1 as int)),
{
    let ghost rest = text@.skip(from as int);
    let mut stop: usize = from;
    while stop < text.len() && text[stop] != '\n'
        invariant
            from <= stop <= text.len(),
            forall|k: int| from <= k < stop ==> text@[k] != '\n',
        decreases text.len() - stop,
    {
        stop += 1;
    }
    proof {
        assert forall|i: int| 0 <= i < stop - from implies rest[i] != '\n' by {
            assert(rest[i] == text@[from + i]);
        }
        lemma_first_newline_is(rest, stop - from);
    }
    if stop == text.len() {
        proof {
            assert(rest =~= text@.subrange(from as int, stop as int));
            assert(text@.skip(stop as int).len() == 0);
            assert(lines_of(rest) =~= seq![rest] + lines_of(text@.skip(stop as int)));
        }
        (stop, stop)
    } else {
        let end = if stop > from && text[stop - 1] == '\r' {
            stop - 1
        } else {
            stop
        };
        proof {
            let raw = rest.take(stop - from);
            assert(raw =~= text@.subrange(from as int, stop as int));
            assert(strip_cr(raw) =~= text@.subrange(from as int, end as int));
            assert(rest.skip(stop - from + 1) =~= text@.skip(stop + 1));
        }
        (end, stop + 1)
    }
}

} // verus!
