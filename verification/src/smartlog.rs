//! The smartlog: the commit graph drawn as lines of styled text.

use crate::describe::{line_spans, plain, Spans};
use crate::graph::{CommitGraph, Node, NodeView};
use crate::mergebase::{MergeBaseCache, MergeBaseRow};
use crate::oid::Oid;
use crate::roots::{
    root_comes_after, settle_last_root, sort_by, spec_split_by_roots, split_commit_graph_by_roots,
};
use crate::styled::{
    styled_append, styled_append_plain, styled_bold, styled_clone, styled_empty, styled_plain,
    styled_spans,
};
use crate::text::{chars_string, str_chars};
use cursive::utils::markup::StyledString;
use vstd::prelude::*;

verus! {

/// The characters that the smartlog is drawn with.
#[derive(Clone, Copy, Debug, PartialEq, Eq)]
pub struct Glyphs {
    /// Whether colors and effects are to be written as escape codes.
    pub should_write_ansi_escape_codes: bool,
    /// Joins a commit to its only or last child.
    pub line: &'static str,
    /// Joins a commit to a child that has siblings after it.
    pub line_with_offshoot: &'static str,
    /// Stands for commits that are not shown.
    pub vertical_ellipsis: &'static str,
    /// Leads from the offshoot to the child.
    pub slash: &'static str,
    pub commit_visible: &'static str,
    pub commit_visible_head: &'static str,
    pub commit_hidden: &'static str,
    pub commit_hidden_head: &'static str,
    pub commit_main: &'static str,
    pub commit_main_head: &'static str,
    pub commit_main_hidden: &'static str,
    pub commit_main_hidden_head: &'static str,
}

impl Glyphs {
    /// Glyphs of plain ASCII, for output without escape codes.
    pub fn text() -> (glyphs: Glyphs)
        ensures
            glyphs == (Glyphs {
                should_write_ansi_escape_codes: false,
                line: "|",
                line_with_offshoot: "|",
                vertical_ellipsis: ":",
                slash: "\\",
                commit_visible: "o",
                commit_visible_head: "@",
                commit_hidden: "x",
                commit_hidden_head: "%",
                commit_main: "O",
                commit_main_head: "@",
                commit_main_hidden: "X",
                commit_main_hidden_head: "%",
            }),
    {
        Glyphs {
            should_write_ansi_escape_codes: false,
            line: "|",
            line_with_offshoot: "|",
            vertical_ellipsis: ":",
            slash: "\\",
            commit_visible: "o",
            commit_visible_head: "@",
            commit_hidden: "x",
            commit_hidden_head: "%",
            commit_main: "O",
            commit_main_head: "@",
            commit_main_hidden: "X",
            commit_main_hidden_head: "%",
        }
    }

    /// Glyphs of box-drawing characters and symbols, for a terminal.
    pub fn pretty() -> (glyphs: Glyphs)
        ensures
            glyphs == (Glyphs {
                should_write_ansi_escape_codes: true,
                line: "\u{2503}",
                line_with_offshoot: "\u{2523}",
                vertical_ellipsis: "\u{22ee}",
                slash: "\u{2501}\u{2513}",
                commit_visible: "\u{25ef}",
                commit_visible_head: "\u{25cf}",
                commit_hidden: "\u{2715}",
                commit_hidden_head: "\u{29bb}",
                commit_main: "\u{25c7}",
                commit_main_head: "\u{25c6}",
                commit_main_hidden: "\u{2715}",
                commit_main_hidden_head: "\u{2756}",
            }),
    {
        Glyphs {
            should_write_ansi_escape_codes: true,
            line: "\u{2503}",
            line_with_offshoot: "\u{2523}",
            vertical_ellipsis: "\u{22ee}",
            slash: "\u{2501}\u{2513}",
            commit_visible: "\u{25ef}",
            commit_visible_head: "\u{25cf}",
            commit_hidden: "\u{2715}",
            commit_hidden_head: "\u{29bb}",
            commit_main: "\u{25c7}",
            commit_main_head: "\u{25c6}",
            commit_main_hidden: "\u{2715}",
            commit_main_hidden_head: "\u{2756}",
        }
    }
}

/// The glyph that stands before a commit. It depends on three things only:
/// whether the commit is on the main branch, whether it is visible, and whether
/// it is checked out.
pub open spec fn spec_cursor_glyph(
    glyphs: Glyphs,
    is_main: bool,
    is_visible: bool,
    is_head: bool,
) -> &'static str {
    if is_main {
        if is_visible {
            if is_head {
                glyphs.commit_main_head
            } else {
                glyphs.commit_main
            }
        } else {
            if is_head {
                glyphs.commit_main_hidden_head
            } else {
                glyphs.commit_main_hidden
            }
        }
    } else {
        if is_visible {
            if is_head {
                glyphs.commit_visible_head
            } else {
                glyphs.commit_visible
            }
        } else {
            if is_head {
                glyphs.commit_hidden_head
            } else {
                glyphs.commit_hidden
            }
        }
    }
}

/// The glyph that stands before a commit.
pub fn cursor_glyph(glyphs: &Glyphs, is_main: bool, is_visible: bool, is_head: bool) -> (glyph:
    &'static str)
    ensures
        glyph == spec_cursor_glyph(*glyphs, is_main, is_visible, is_head),
{
    match (is_main, is_visible, is_head) {
        (false, false, false) => glyphs.commit_hidden,
        (false, false, true) => glyphs.commit_hidden_head,
        (false, true, false) => glyphs.commit_visible,
        (false, true, true) => glyphs.commit_visible_head,
        (true, false, false) => glyphs.commit_main_hidden,
        (true, false, true) => glyphs.commit_main_hidden_head,
        (true, true, false) => glyphs.commit_main,
        (true, true, true) => glyphs.commit_main_head,
    }
}

/// The spans `spans`, each set in bold.
pub open spec fn bold(spans: Spans) -> Spans {
    spans.map_values(|span: (Seq<char>, bool)| (span.0, true))
}

/// The line of a commit: its glyph, a blank, and its description; all of it in
/// bold if the commit is checked out.
pub open spec fn commit_line(glyphs: Glyphs, node: NodeView, head_oid: Option<Oid>) -> Spans {
    let is_head = head_oid == Some(node.oid);
    let line = plain(spec_cursor_glyph(glyphs, node.is_main, node.is_visible, is_head)@) + plain(
        " "@,
    ) + node.text;
    if is_head {
        bold(line)
    } else {
        line
    }
}

/// The line of a commit starts with the glyph of the commit, which is one of
/// the eight glyphs for commits.
pub proof fn lemma_commit_line_starts_with_glyph(
    glyphs: Glyphs,
    node: NodeView,
    head_oid: Option<Oid>,
)
    ensures
        commit_line(glyphs, node, head_oid).len() >= 2,
        commit_line(glyphs, node, head_oid)[0].0 == spec_cursor_glyph(
            glyphs,
            node.is_main,
            node.is_visible,
            head_oid == Some(node.oid),
        )@,
        ({
            let glyph = spec_cursor_glyph(
                glyphs,
                node.is_main,
                node.is_visible,
                head_oid == Some(node.oid),
            );
            ||| glyph == glyphs.commit_visible
            ||| glyph == glyphs.commit_visible_head
            ||| glyph == glyphs.commit_hidden
            ||| glyph == glyphs.commit_hidden_head
            ||| glyph == glyphs.commit_main
            ||| glyph == glyphs.commit_main_head
            ||| glyph == glyphs.commit_main_hidden
            ||| glyph == glyphs.commit_main_hidden_head
        }),
{
}

/// Those of `children` that are places of the graph, in order.
pub open spec fn children_in_graph(graph: Seq<NodeView>, children: Seq<usize>) -> Seq<usize>
    decreases children.len(),
{
    if children.len() == 0 {
        Seq::empty()
    } else if children.last() < graph.len() {
        children_in_graph(graph, children.drop_last()).push(children.last())
    } else {
        children_in_graph(graph, children.drop_last())
    }
}

/// The children of the commit at `place` in the order of showing: by time,
/// and by identifier where the times are the same.
pub open spec fn sorted_children(graph: Seq<NodeView>, place: usize) -> Seq<usize> {
    sort_by(
        children_in_graph(graph, graph[place as int].children),
        root_comes_after(graph, Seq::<MergeBaseRow>::empty()),
    )
}

/// `lines`, each behind one plain span that holds `prefix`, if there is one.
pub open spec fn indented(prefix: Option<Seq<char>>, lines: Seq<Spans>) -> Seq<Spans> {
    match prefix {
        Some(text) => lines.map_values(|line: Spans| plain(text) + line),
        None => lines,
    }
}

/// What is drawn for the children `children[k..]` of a commit, `depth` levels
/// of descendants deep. A child that is a root is left out, for it is drawn as
/// a root. Before any other child stands a connector: the plain line if it is
/// the last child and nothing follows the commit, an offshoot else. The lines
/// of a child that is not the last are drawn behind the line glyph, those of
/// the last child behind `last_child_line_char`, if there is one.
pub open spec fn children_lines(
    glyphs: Glyphs,
    graph: Seq<NodeView>,
    roots: Seq<usize>,
    head_oid: Option<Oid>,
    children: Seq<usize>,
    k: int,
    last_child_line_char: Option<Seq<char>>,
    depth: nat,
) -> Seq<Spans>
    decreases depth, 1 + children.len() - k,
{
    if k < 0 || k >= children.len() {
        Seq::empty()
    } else {
        let child = children[k];
        let is_last = k == children.len() - 1;
        let here = if roots.contains(child) {
            Seq::empty()
        } else {
            let connector = if is_last && last_child_line_char is None {
                plain(glyphs.line@)
            } else {
                plain(glyphs.line_with_offshoot@ + glyphs.slash@)
            };
            let prefix = if is_last {
                match last_child_line_char {
                    Some(text) => Some(text + " "@),
                    None => None,
                }
            } else {
                Some(glyphs.line@ + " "@)
            };
            seq![connector] + indented(
                prefix,
                node_lines(glyphs, graph, roots, head_oid, child, None, depth),
            )
        };
        here + children_lines(
            glyphs,
            graph,
            roots,
            head_oid,
            children,
            k + 1,
            last_child_line_char,
            depth,
        )
    }
}

/// What is drawn for the commit at `place` and its descendants, `depth` levels
/// of descendants deep: the line of the commit, then its children.
pub open spec fn node_lines(
    glyphs: Glyphs,
    graph: Seq<NodeView>,
    roots: Seq<usize>,
    head_oid: Option<Oid>,
    place: usize,
    last_child_line_char: Option<Seq<char>>,
    depth: nat,
) -> Seq<Spans>
    decreases depth, 0nat,
{
    seq![commit_line(glyphs, graph[place as int], head_oid)] + if depth == 0 {
        Seq::empty()
    } else {
        children_lines(
            glyphs,
            graph,
            roots,
            head_oid,
            sorted_children(graph, place),
            0,
            last_child_line_char,
            (depth - 1) as nat,
        )
    }
}

/// Whether the commit at `child` has the commit at `parent` among its parents
/// in the repository.
pub open spec fn has_real_parent(graph: Seq<NodeView>, child: usize, parent: usize) -> bool {
    graph[child as int].parent_oids.contains(graph[parent as int].oid)
}

/// What is drawn for the roots `roots[k..]`. Before a root that has parents
/// stands a line glyph if the root before it is one of them, and an ellipsis
/// else; before a root without parents, but for the first, an empty line.
pub open spec fn root_lines(
    glyphs: Glyphs,
    graph: Seq<NodeView>,
    roots: Seq<usize>,
    head_oid: Option<Oid>,
    k: int,
    depth: nat,
) -> Seq<Spans>
    decreases roots.len() - k,
{
    if k < 0 || k >= roots.len() {
        Seq::empty()
    } else {
        let root = roots[k];
        let opener = if graph[root as int].parent_oids.len() > 0 {
            if k > 0 && has_real_parent(graph, root, roots[k - 1]) {
                seq![plain(glyphs.line@)]
            } else {
                seq![plain(glyphs.vertical_ellipsis@)]
            }
        } else if k > 0 {
            seq![Seq::<(Seq<char>, bool)>::empty()]
        } else {
            Seq::empty()
        };
        let last_child_line_char = if k == roots.len() - 1 {
            None
        } else if has_real_parent(graph, roots[k + 1], root) {
            Some(glyphs.line@)
        } else {
            Some(glyphs.vertical_ellipsis@)
        };
        opener + node_lines(glyphs, graph, roots, head_oid, root, last_child_line_char, depth)
            + root_lines(glyphs, graph, roots, head_oid, k + 1, depth)
    }
}

/// What is drawn from a root on is the end of what is drawn for all roots.
pub proof fn lemma_root_lines_end(
    glyphs: Glyphs,
    graph: Seq<NodeView>,
    roots: Seq<usize>,
    head_oid: Option<Oid>,
    k: int,
    depth: nat,
)
    requires
        0 <= k <= roots.len(),
    ensures
        root_lines(glyphs, graph, roots, head_oid, k, depth).len() <= root_lines(
            glyphs,
            graph,
            roots,
            head_oid,
            0,
            depth,
        ).len(),
        root_lines(glyphs, graph, roots, head_oid, 0, depth).skip(
            root_lines(glyphs, graph, roots, head_oid, 0, depth).len() - root_lines(
                glyphs,
                graph,
                roots,
                head_oid,
                k,
                depth,
            ).len(),
        ) == root_lines(glyphs, graph, roots, head_oid, k, depth),
    decreases k,
{
    let all = root_lines(glyphs, graph, roots, head_oid, 0, depth);
    let here = root_lines(glyphs, graph, roots, head_oid, k, depth);
    if k == 0 {
        assert(all.skip(0) =~= all);
    } else {
        lemma_root_lines_end(glyphs, graph, roots, head_oid, k - 1, depth);
        let before = root_lines(glyphs, graph, roots, head_oid, k - 1, depth);
        let own = before.len() - here.len();
        assert(before.skip(own) =~= here);
        assert(all.skip(all.len() - before.len()).skip(own) =~= all.skip(all.len() - here.len()));
    }
}

/// A root without parents that is not the first root stands behind an empty
/// line: in what is drawn for all roots, the line before the line of that root
/// has no span, so it is neither a line glyph nor an ellipsis.
pub proof fn lemma_unrelated_root_follows_empty_line(
    glyphs: Glyphs,
    graph: Seq<NodeView>,
    roots: Seq<usize>,
    head_oid: Option<Oid>,
    k: int,
    depth: nat,
)
    requires
        0 < k < roots.len(),
        graph[roots[k] as int].parent_oids.len() == 0,
    ensures
        ({
            let all = root_lines(glyphs, graph, roots, head_oid, 0, depth);
            let from_root = root_lines(glyphs, graph, roots, head_oid, k, depth);
            let at = all.len() - from_root.len();
            &&& 0 <= at
            &&& at + 1 < all.len()
            &&& all[at] == Seq::<(Seq<char>, bool)>::empty()
            &&& all[at + 1] == commit_line(glyphs, graph[roots[k] as int], head_oid)
        }),
{
    let all = root_lines(glyphs, graph, roots, head_oid, 0, depth);
    let from_root = root_lines(glyphs, graph, roots, head_oid, k, depth);
    lemma_root_lines_end(glyphs, graph, roots, head_oid, k, depth);
    let at = all.len() - from_root.len();
    let last_child_line_char = if k == roots.len() - 1 {
        None
    } else if has_real_parent(graph, roots[k + 1], roots[k]) {
        Some(glyphs.line@)
    } else {
        Some(glyphs.vertical_ellipsis@)
    };
    let below = node_lines(glyphs, graph, roots, head_oid, roots[k], last_child_line_char, depth);
    assert(below[0] == commit_line(glyphs, graph[roots[k] as int], head_oid));
    assert(from_root[0] == Seq::<(Seq<char>, bool)>::empty());
    assert(from_root[1] == below[0]);
    assert(all.skip(at)[0] == all[at]);
    assert(all.skip(at)[1] == all[at + 1]);
}

/// The smartlog of `graph`: its roots in the order of showing, each with its
/// descendants as deep as the graph has commits, which is all the way down in
/// a graph without cycles.
pub open spec fn spec_render_graph(
    glyphs: Glyphs,
    graph: Seq<NodeView>,
    rows: Seq<MergeBaseRow>,
    head_oid: Option<Oid>,
) -> Seq<Spans> {
    root_lines(glyphs, graph, spec_split_by_roots(graph, rows), head_oid, 0, graph.len())
}

/// The two strings one after the other.
fn joined(first: &str, second: &str) -> (text: String)
    ensures
        text@ == first@ + second@,
{
    let mut out = str_chars(first);
    let more = str_chars(second);
    crate::lines::push_all(&mut out, &more);
    chars_string(&out)
}

/// The line of a commit.
fn render_commit_line(glyphs: &Glyphs, node: &Node, head_oid: Option<Oid>) -> (line: StyledString)
    ensures
        styled_spans(line) == commit_line(*glyphs, node@, head_oid),
{
    let is_head = match head_oid {
        Some(oid) => oid == node.oid,
        None => false,
    };
    let mut line = styled_plain(cursor_glyph(glyphs, node.is_main, node.is_visible, is_head));
    styled_append_plain(&mut line, " ");
    styled_append(&mut line, styled_clone(&node.text));
    assert(styled_spans(line) =~= plain(
        spec_cursor_glyph(*glyphs, node.is_main, node.is_visible, is_head)@,
    ) + plain(" "@) + node@.text);
    if is_head {
        styled_bold(line)
    } else {
        line
    }
}

/// The children of the commit at `place` in the order of showing.
fn sort_children(graph: &CommitGraph, place: usize) -> (children: Vec<usize>)
    requires
        place < graph@.len(),
    ensures
        children@ == sorted_children(graph@, place),
        forall|k: int| 0 <= k < children.len() ==> (#[trigger] children[k]) < graph@.len(),
{
    let unordered = MergeBaseCache::new();
    assert(unordered@ =~= Seq::<MergeBaseRow>::empty());
    let ghost after = root_comes_after(graph@, Seq::<MergeBaseRow>::empty());
    let mut children: Vec<usize> = Vec::new();
    let node = match graph.node(place) {
        Some(node) => node,
        None => {
            return children;
        },
    };
    let ghost given = node.children@;
    let mut i: usize = 0;
    assert(given.take(0) =~= Seq::<usize>::empty());
    while i < node.children.len()
        invariant
            i <= node.children.len(),
            given == node.children@,
            unordered@ == Seq::<MergeBaseRow>::empty(),
            after == root_comes_after(graph@, Seq::<MergeBaseRow>::empty()),
            children@ == sort_by(children_in_graph(graph@, given.take(i as int)), after),
            forall|k: int| 0 <= k < children.len() ==> (#[trigger] children[k]) < graph@.len(),
        decreases node.children.len() - i,
    {
        let child = node.children[i];
        proof {
            assert(given.take(i + 1).drop_last() =~= given.take(i as int));
            assert(given.take(i + 1).last() == child);
        }
        if child < graph.len() {
            let ghost sorted = children@;
            children.push(child);
            assert(children@.drop_last() =~= sorted);
            settle_last_root(graph, &unordered, &mut children);
            proof {
                let kept = children_in_graph(graph@, given.take(i + 1));
                assert(kept.drop_last() =~= children_in_graph(graph@, given.take(i as int)));
            }
        }
        i += 1;
    }
    assert(given.take(node.children.len() as int) =~= given);
    children
}

/// Whether `places` holds `place`.
fn holds(places: &Vec<usize>, place: usize) -> (found: bool)
    ensures
        found == places@.contains(place),
{
    let mut i: usize = 0;
    while i < places.len()
        invariant
            i <= places.len(),
            forall|k: int| 0 <= k < i ==> places[k] != place,
        decreases places.len() - i,
    {
        if places[i] == place {
            return true;
        }
        i += 1;
    }
    false
}

/// Whether `oids` holds `oid`.
fn holds_oid(oids: &Vec<Oid>, oid: Oid) -> (found: bool)
    ensures
        found == oids@.contains(oid),
{
    let mut i: usize = 0;
    while i < oids.len()
        invariant
            i <= oids.len(),
            forall|k: int| 0 <= k < i ==> oids[k] != oid,
        decreases oids.len() - i,
    {
        if oids[i] == oid {
            return true;
        }
        i += 1;
    }
    false
}

/// `lines` in the opposite order.
fn reversed(lines: Vec<StyledString>) -> (turned: Vec<StyledString>)
    ensures
        turned.len() == lines.len(),
        forall|k: int|
            0 <= k < turned.len() ==> styled_spans(#[trigger] turned[k]) == line_spans(
                lines@,
            )[lines.len() - 1 - k],
{
    let ghost given = line_spans(lines@);
    let mut lines = lines;
    let mut turned: Vec<StyledString> = Vec::new();
    while lines.len() > 0
        invariant
            lines.len() + turned.len() == given.len(),
            forall|k: int| 0 <= k < lines.len() ==> styled_spans(#[trigger] lines[k]) == given[k],
            forall|k: int|
                0 <= k < turned.len() ==> styled_spans(#[trigger] turned[k]) == given[given.len() - 1
                    - k],
        decreases lines.len(),
    {
        match lines.pop() {
            Some(line) => {
                turned.push(line);
            },
            None => {},
        }
    }
    turned
}

/// Appends `lines` to `out`, each behind `prefix` if there is one.
fn push_indented(out: &mut Vec<StyledString>, prefix: Option<&str>, lines: Vec<StyledString>)
    ensures
        line_spans(final(out)@) == line_spans(old(out)@) + indented(
            match prefix {
                Some(text) => Some(text@),
                None => None,
            },
            line_spans(lines@),
        ),
{
    let ghost before = line_spans(out@);
    let ghost given = line_spans(lines@);
    let ghost wanted = indented(
        match prefix {
            Some(text) => Some(text@),
            None => None,
        },
        given,
    );
    let mut turned = reversed(lines);
    assert(line_spans(out@) =~= before + wanted.take(0));
    while turned.len() > 0
        invariant
            turned.len() <= given.len(),
            wanted.len() == given.len(),
            wanted == indented(
                match prefix {
                    Some(text) => Some(text@),
                    None => None,
                },
                given,
            ),
            forall|k: int|
                0 <= k < turned.len() ==> styled_spans(#[trigger] turned[k]) == given[given.len() - 1
                    - k],
            line_spans(out@) == before + wanted.take(given.len() - turned.len()),
        decreases turned.len(),
    {
        let ghost done = line_spans(out@);
        let ghost at = given.len() - turned.len();
        match turned.pop() {
            Some(line) => {
                assert(styled_spans(line) == given[at]);
                let line = match prefix {
                    Some(text) => {
                        let mut behind = styled_plain(text);
                        styled_append(&mut behind, line);
                        behind
                    },
                    None => line,
                };
                assert(styled_spans(line) == wanted[at]);
                out.push(line);
                assert(line_spans(out@) =~= done.push(wanted[at]));
                assert(done.push(wanted[at]) =~= before + wanted.take(at + 1));
            },
            None => {},
        }
    }
    assert(wanted.take(given.len() as int) =~= wanted);
}

/// Draws the commit at `place` and its descendants, `depth` levels deep.
fn get_child_output(
    glyphs: &Glyphs,
    graph: &CommitGraph,
    roots: &Vec<usize>,
    head_oid: Option<Oid>,
    place: usize,
    last_child_line_char: Option<&str>,
    depth: usize,
) -> (lines: Vec<StyledString>)
    requires
        place < graph@.len(),
    ensures
        line_spans(lines@) == node_lines(
            *glyphs,
            graph@,
            roots@,
            head_oid,
            place,
            match last_child_line_char {
                Some(text) => Some(text@),
                None => None,
            },
            depth as nat,
        ),
    decreases depth,
{
    let ghost last_char = match last_child_line_char {
        Some(text) => Some(text@),
        None => None,
    };
    let mut lines: Vec<StyledString> = Vec::new();
    match graph.node(place) {
        Some(node) => {
            lines.push(render_commit_line(glyphs, node, head_oid));
        },
        None => {},
    }
    assert(line_spans(lines@) =~= seq![commit_line(*glyphs, graph@[place as int], head_oid)]);
    if depth == 0 {
        assert(line_spans(lines@) =~= node_lines(
            *glyphs,
            graph@,
            roots@,
            head_oid,
            place,
            last_char,
            0,
        ));
        return lines;
    }
    let children = sort_children(graph, place);
    let ghost first = line_spans(lines@);
    let mut k: usize = 0;
    assert(first + children_lines(
        *glyphs,
        graph@,
        roots@,
        head_oid,
        children@,
        0,
        last_char,
        (depth - 1) as nat,
    ) == node_lines(*glyphs, graph@, roots@, head_oid, place, last_char, depth as nat));
    while k < children.len()
        invariant
            k <= children.len(),
            depth > 0,
            last_char == match last_child_line_char {
                Some(text) => Some(text@),
                None => None,
            },
            forall|j: int| 0 <= j < children.len() ==> (#[trigger] children[j]) < graph@.len(),
            line_spans(lines@) + children_lines(
                *glyphs,
                graph@,
                roots@,
                head_oid,
                children@,
                k as int,
                last_char,
                (depth - 1) as nat,
            ) == node_lines(*glyphs, graph@, roots@, head_oid, place, last_char, depth as nat),
        decreases children.len() - k,
    {
        let child = children[k];
        let is_last = k == children.len() - 1;
        let ghost done = line_spans(lines@);
        let ghost rest = children_lines(
            *glyphs,
            graph@,
            roots@,
            head_oid,
            children@,
            k + 1,
            last_char,
            (depth - 1) as nat,
        );
        if !holds(roots, child) {
            let connector = if is_last && last_child_line_char.is_none() {
                styled_plain(glyphs.line)
            } else {
                let offshoot = joined(glyphs.line_with_offshoot, glyphs.slash);
                styled_plain(offshoot.as_str())
            };
            let ghost connector_spans = styled_spans(connector);
            lines.push(connector);
            assert(line_spans(lines@) =~= done + seq![connector_spans]);
            let child_output = get_child_output(
                glyphs,
                graph,
                roots,
                head_oid,
                child,
                None,
                depth - 1,
            );
            let ghost child_spans = line_spans(child_output@);
            if is_last {
                match last_child_line_char {
                    Some(text) => {
                        let prefix = joined(text, " ");
                        push_indented(&mut lines, Some(prefix.as_str()), child_output);
                    },
                    None => {
                        push_indented(&mut lines, None, child_output);
                    },
                }
            } else {
                let prefix = joined(glyphs.line, " ");
                push_indented(&mut lines, Some(prefix.as_str()), child_output);
            }
            proof {
                let prefix = if is_last {
                    match last_char {
                        Some(text) => Some(text + " "@),
                        None => None,
                    }
                } else {
                    Some(glyphs.line@ + " "@)
                };
                let here = seq![connector_spans] + indented(prefix, child_spans);
                assert(line_spans(lines@) =~= done + here);
                assert((done + here) + rest =~= done + (here + rest));
            }
        }
        k += 1;
    }
    assert(line_spans(lines@) + Seq::<Spans>::empty() =~= line_spans(lines@));
    lines
}

/// Draws the roots `roots` one after the other, each with its descendants.
fn get_output(
    glyphs: &Glyphs,
    graph: &CommitGraph,
    head_oid: Option<Oid>,
    roots: &Vec<usize>,
) -> (lines: Vec<StyledString>)
    requires
        forall|k: int| 0 <= k < roots.len() ==> (#[trigger] roots[k]) < graph@.len(),
    ensures
        line_spans(lines@) == root_lines(*glyphs, graph@, roots@, head_oid, 0, graph@.len()),
{
    let depth = graph.len();
    let mut lines: Vec<StyledString> = Vec::new();
    let mut k: usize = 0;
    assert(line_spans(lines@) =~= Seq::<Spans>::empty());
    assert(Seq::<Spans>::empty() + root_lines(*glyphs, graph@, roots@, head_oid, 0, depth as nat)
        =~= root_lines(*glyphs, graph@, roots@, head_oid, 0, depth as nat));
    while k < roots.len()
        invariant
            k <= roots.len(),
            depth == graph@.len(),
            forall|j: int| 0 <= j < roots.len() ==> (#[trigger] roots[j]) < graph@.len(),
            line_spans(lines@) + root_lines(*glyphs, graph@, roots@, head_oid, k as int, depth as nat)
                == root_lines(*glyphs, graph@, roots@, head_oid, 0, depth as nat),
        decreases roots.len() - k,
    {
        let root = roots[k];
        let ghost done = line_spans(lines@);
        let ghost rest = root_lines(*glyphs, graph@, roots@, head_oid, k + 1, depth as nat);
        let (has_parents, follows_parent) = match graph.node(root) {
            Some(node) => {
                let follows = if k > 0 {
                    match graph.node(roots[k - 1]) {
                        Some(before) => holds_oid(&node.parent_oids, before.oid),
                        None => false,
                    }
                } else {
                    false
                };
                (node.parent_oids.len() > 0, follows)
            },
            None => (false, false),
        };
        let ghost opener: Seq<Spans>;
        if has_parents {
            let glyph = if follows_parent {
                glyphs.line
            } else {
                glyphs.vertical_ellipsis
            };
            lines.push(styled_plain(glyph));
            proof {
                opener = seq![plain(glyph@)];
            }
        } else if k > 0 {
            lines.push(styled_empty());
            proof {
                opener = seq![Seq::<(Seq<char>, bool)>::empty()];
            }
        } else {
            proof {
                opener = Seq::empty();
            }
        }
        assert(line_spans(lines@) =~= done + opener);
        let last_child_line_char: Option<&str> = if k == roots.len() - 1 {
            None
        } else {
            let followed = match (graph.node(roots[k + 1]), graph.node(root)) {
                (Some(next), Some(node)) => holds_oid(&next.parent_oids, node.oid),
                _ => false,
            };
            if followed {
                Some(glyphs.line)
            } else {
                Some(glyphs.vertical_ellipsis)
            }
        };
        let mut child_output = get_child_output(
            glyphs,
            graph,
            roots,
            head_oid,
            root,
            last_child_line_char,
            depth,
        );
        let ghost below = line_spans(child_output@);
        lines.append(&mut child_output);
        proof {
            assert(line_spans(lines@) =~= done + opener + below);
            assert((done + opener + below) + rest =~= done + (opener + below + rest));
        }
        k += 1;
    }
    assert(line_spans(lines@) + Seq::<Spans>::empty() =~= line_spans(lines@));
    lines
}

/// Draws the smartlog: the commit graph as lines of styled text, the roots in
/// the order of showing, under each root its descendants. `cache` holds the
/// merge bases of the roots; `head_oid` is the commit that is checked out.
pub fn render_graph(
    glyphs: &Glyphs,
    graph: &CommitGraph,
    cache: &MergeBaseCache,
    head_oid: Option<Oid>,
) -> (lines: Vec<StyledString>)
    ensures
        line_spans(lines@) == spec_render_graph(*glyphs, graph@, cache@, head_oid),
{
    let roots = split_commit_graph_by_roots(graph, cache);
    get_output(glyphs, graph, head_oid, &roots)
}

} // verus!
