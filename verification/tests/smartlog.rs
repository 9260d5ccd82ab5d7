use branchless::graph::{CommitGraph, CommitTime};
use branchless::mergebase::MergeBaseCache;
use branchless::oid::Oid;
use branchless::roots::{
    compare_roots, root_pairs, split_commit_graph_by_roots, Order, RootCommit,
};
use branchless::smartlog::{cursor_glyph, render_graph, Glyphs};
use cursive::style::{Effect, EffectStatus};
use cursive::utils::markup::StyledString;

fn oid(digit: char) -> Oid {
    let text: String = std::iter::repeat(digit).take(40).collect();
    Oid::parse(&text).unwrap()
}

fn time(seconds: i64) -> CommitTime {
    CommitTime { seconds, offset_minutes: 0 }
}

fn spans(line: &StyledString) -> Vec<(String, bool)> {
    line.spans()
        .map(|span| {
            (
                span.content.to_owned(),
                span.attr.effects[Effect::Bold] == EffectStatus::OppositeParent,
            )
        })
        .collect()
}

fn sources(lines: &[StyledString]) -> Vec<String> {
    lines.iter().map(|line| line.source().to_owned()).collect()
}

fn add(
    graph: &mut CommitGraph,
    digit: char,
    seconds: i64,
    parents: Vec<Oid>,
    is_main: bool,
    is_visible: bool,
) -> usize {
    graph
        .add_node(
            oid(digit),
            StyledString::plain(format!("commit {}", digit)),
            time(seconds),
            parents,
            is_main,
            is_visible,
        )
        .unwrap()
}

#[test]
fn test_cursor_glyph_is_one_of_eight() {
    let glyphs = Glyphs::text();
    assert_eq!(cursor_glyph(&glyphs, false, false, false), "x");
    assert_eq!(cursor_glyph(&glyphs, false, false, true), "%");
    assert_eq!(cursor_glyph(&glyphs, false, true, false), "o");
    assert_eq!(cursor_glyph(&glyphs, false, true, true), "@");
    assert_eq!(cursor_glyph(&glyphs, true, false, false), "X");
    assert_eq!(cursor_glyph(&glyphs, true, false, true), "%");
    assert_eq!(cursor_glyph(&glyphs, true, true, false), "O");
    assert_eq!(cursor_glyph(&glyphs, true, true, true), "@");
    let pretty = Glyphs::pretty();
    assert_eq!(cursor_glyph(&pretty, false, false, false), pretty.commit_hidden);
    assert_eq!(cursor_glyph(&pretty, false, false, true), pretty.commit_hidden_head);
    assert_eq!(cursor_glyph(&pretty, false, true, false), pretty.commit_visible);
    assert_eq!(cursor_glyph(&pretty, false, true, true), pretty.commit_visible_head);
    assert_eq!(cursor_glyph(&pretty, true, false, false), pretty.commit_main_hidden);
    assert_eq!(cursor_glyph(&pretty, true, false, true), pretty.commit_main_hidden_head);
    assert_eq!(cursor_glyph(&pretty, true, true, false), pretty.commit_main);
    assert_eq!(cursor_glyph(&pretty, true, true, true), pretty.commit_main_head);
}

#[test]
fn test_glyph_sets() {
    let text = Glyphs::text();
    assert!(!text.should_write_ansi_escape_codes);
    assert!(text.line.is_ascii() && text.slash.is_ascii() && text.vertical_ellipsis.is_ascii());
    let pretty = Glyphs::pretty();
    assert!(pretty.should_write_ansi_escape_codes);
    assert_eq!(pretty.line, "\u{2503}");
    assert_eq!(pretty.slash, "\u{2501}\u{2513}");
    assert_eq!(pretty.vertical_ellipsis, "\u{22ee}");
}

#[test]
fn test_render_root_with_two_children() {
    let mut graph = CommitGraph::new();
    let root = add(&mut graph, 'a', 10, vec![oid('f')], true, true);
    let late = add(&mut graph, 'c', 30, vec![oid('a')], false, true);
    let early = add(&mut graph, 'b', 20, vec![oid('a')], false, true);
    assert!(graph.link(root, late));
    assert!(graph.link(root, early));
    let lines = render_graph(&Glyphs::text(), &graph, &MergeBaseCache::new(), Some(oid('c')));
    assert_eq!(
        sources(&lines),
        vec![":", "O commit a", "|\\", "| o commit b", "|", "@ commit c"]
    );
    assert_eq!(
        spans(&lines[1]),
        vec![
            ("O".to_owned(), false),
            (" ".to_owned(), false),
            ("commit a".to_owned(), false)
        ]
    );
    assert_eq!(
        spans(&lines[3]),
        vec![
            ("| ".to_owned(), false),
            ("o".to_owned(), false),
            (" ".to_owned(), false),
            ("commit b".to_owned(), false)
        ]
    );
    assert_eq!(
        spans(&lines[5]),
        vec![
            ("@".to_owned(), true),
            (" ".to_owned(), true),
            ("commit c".to_owned(), true)
        ]
    );
}

#[test]
fn test_render_head_inside_a_branch_keeps_the_prefix_plain() {
    let mut graph = CommitGraph::new();
    let root = add(&mut graph, 'a', 10, vec![oid('f')], true, true);
    let first = add(&mut graph, 'b', 20, vec![oid('a')], false, true);
    let second = add(&mut graph, 'c', 30, vec![oid('a')], false, false);
    graph.link(root, first);
    graph.link(root, second);
    let lines = render_graph(&Glyphs::text(), &graph, &MergeBaseCache::new(), Some(oid('b')));
    assert_eq!(
        sources(&lines),
        vec![":", "O commit a", "|\\", "| @ commit b", "|", "x commit c"]
    );
    assert_eq!(
        spans(&lines[3]),
        vec![
            ("| ".to_owned(), false),
            ("@".to_owned(), true),
            (" ".to_owned(), true),
            ("commit b".to_owned(), true)
        ]
    );
}

#[test]
fn test_render_unrelated_roots_with_blank_line() {
    let mut graph = CommitGraph::new();
    add(&mut graph, 'b', 20, vec![], false, true);
    add(&mut graph, 'a', 10, vec![], false, true);
    let lines = render_graph(&Glyphs::text(), &graph, &MergeBaseCache::new(), None);
    assert_eq!(sources(&lines), vec!["o commit a", "", "o commit b"]);
    assert_eq!(spans(&lines[1]), vec![]);
}

#[test]
fn test_render_chain_of_roots() {
    let mut graph = CommitGraph::new();
    let first = add(&mut graph, 'a', 10, vec![oid('f')], true, true);
    add(&mut graph, 'b', 20, vec![oid('a')], true, true);
    let child = add(&mut graph, 'c', 15, vec![oid('a')], false, true);
    graph.link(first, child);
    let mut cache = MergeBaseCache::new();
    cache.store(oid('a'), oid('b'), Some(oid('a')));
    let lines = render_graph(&Glyphs::text(), &graph, &cache, None);
    assert_eq!(
        sources(&lines),
        vec![":", "O commit a", "|\\", "| o commit c", "|", "O commit b"]
    );
}

#[test]
fn test_render_root_followed_by_unrelated_root() {
    let mut graph = CommitGraph::new();
    let first = add(&mut graph, 'a', 10, vec![oid('f')], true, true);
    add(&mut graph, 'b', 20, vec![oid('e')], true, true);
    let child = add(&mut graph, 'c', 15, vec![oid('a')], false, true);
    graph.link(first, child);
    let lines = render_graph(&Glyphs::text(), &graph, &MergeBaseCache::new(), None);
    assert_eq!(
        sources(&lines),
        vec![":", "O commit a", "|\\", ": o commit c", ":", "O commit b"]
    );
}

#[test]
fn test_render_nested_children() {
    let mut graph = CommitGraph::new();
    let root = add(&mut graph, 'a', 10, vec![], true, true);
    let child = add(&mut graph, 'b', 20, vec![oid('a')], false, true);
    let left = add(&mut graph, 'c', 30, vec![oid('b')], false, true);
    let right = add(&mut graph, 'd', 40, vec![oid('b')], false, true);
    graph.link(root, child);
    graph.link(child, left);
    graph.link(child, right);
    let lines = render_graph(&Glyphs::pretty(), &graph, &MergeBaseCache::new(), None);
    assert_eq!(
        sources(&lines),
        vec![
            "\u{25c7} commit a",
            "\u{2503}",
            "\u{25ef} commit b",
            "\u{2523}\u{2501}\u{2513}",
            "\u{2503} \u{25ef} commit c",
            "\u{2503}",
            "\u{25ef} commit d"
        ]
    );
}

#[test]
fn test_render_empty_graph() {
    let graph = CommitGraph::new();
    let lines = render_graph(&Glyphs::text(), &graph, &MergeBaseCache::new(), None);
    assert_eq!(lines.len(), 0);
}

#[test]
fn test_children_with_equal_times_are_ordered_by_oid() {
    let mut graph = CommitGraph::new();
    let root = add(&mut graph, 'a', 10, vec![], true, true);
    let second = add(&mut graph, 'c', 20, vec![oid('a')], false, true);
    let first = add(&mut graph, 'b', 20, vec![oid('a')], false, true);
    graph.link(root, second);
    graph.link(root, first);
    let lines = render_graph(&Glyphs::text(), &graph, &MergeBaseCache::new(), None);
    assert_eq!(
        sources(&lines),
        vec!["O commit a", "|\\", "| o commit b", "|", "o commit c"]
    );
}

#[test]
fn test_roots_ordered_by_merge_base() {
    let mut graph = CommitGraph::new();
    let late = add(&mut graph, 'a', 100, vec![], true, true);
    let early = add(&mut graph, 'b', 5, vec![], true, true);
    let mut cache = MergeBaseCache::new();
    assert_eq!(split_commit_graph_by_roots(&graph, &cache), vec![early, late]);
    cache.store(oid('a'), oid('b'), Some(oid('a')));
    assert_eq!(split_commit_graph_by_roots(&graph, &cache), vec![late, early]);
    let mut swapped = CommitGraph::new();
    let early = add(&mut swapped, 'b', 5, vec![], true, true);
    let late = add(&mut swapped, 'a', 100, vec![], true, true);
    assert_eq!(split_commit_graph_by_roots(&swapped, &cache), vec![late, early]);
}

#[test]
fn test_roots_are_the_nodes_without_parent() {
    let mut graph = CommitGraph::new();
    let third = add(&mut graph, 'c', 30, vec![], false, true);
    let first = add(&mut graph, 'a', 10, vec![], false, true);
    let child = add(&mut graph, 'd', 5, vec![oid('a')], false, true);
    let second = add(&mut graph, 'b', 20, vec![], false, true);
    graph.link(first, child);
    assert_eq!(
        split_commit_graph_by_roots(&graph, &MergeBaseCache::new()),
        vec![first, second, third]
    );
}

#[test]
fn test_compare_roots() {
    let a = RootCommit { oid: oid('a'), time: Some(time(10)) };
    let b = RootCommit { oid: oid('b'), time: Some(time(5)) };
    assert_eq!(compare_roots(a, b, Some(oid('a'))), Order::Less);
    assert_eq!(compare_roots(b, a, Some(oid('a'))), Order::Greater);
    assert_eq!(compare_roots(a, b, Some(oid('b'))), Order::Greater);
    assert_eq!(compare_roots(a, b, None), Order::Greater);
    assert_eq!(compare_roots(b, a, None), Order::Less);
    assert_eq!(compare_roots(a, b, Some(oid('c'))), Order::Greater);
    assert_eq!(compare_roots(a, a, None), Order::Equal);
    let same_time = RootCommit { oid: oid('c'), time: Some(time(10)) };
    assert_eq!(compare_roots(a, same_time, None), Order::Less);
    assert_eq!(compare_roots(same_time, a, None), Order::Greater);
    let offset = RootCommit {
        oid: oid('0'),
        time: Some(CommitTime { seconds: 10, offset_minutes: 60 }),
    };
    assert_eq!(compare_roots(a, offset, None), Order::Less);
    let missing = RootCommit { oid: oid('0'), time: None };
    assert_eq!(compare_roots(missing, b, Some(oid('b'))), Order::Less);
    assert_eq!(compare_roots(b, missing, Some(oid('b'))), Order::Greater);
}

#[test]
fn test_graph_building() {
    let mut graph = CommitGraph::new();
    assert_eq!(graph.len(), 0);
    let a = add(&mut graph, 'a', 1, vec![], false, true);
    assert_eq!(a, 0);
    assert_eq!(
        graph.add_node(oid('a'), StyledString::plain("again"), time(2), vec![], true, true),
        None
    );
    assert_eq!(graph.len(), 1);
    let b = add(&mut graph, 'b', 2, vec![oid('a')], false, false);
    assert_eq!(graph.find(oid('b')), Some(b));
    assert_eq!(graph.find(oid('c')), None);
    assert!(!graph.link(a, 5));
    assert!(!graph.link(7, b));
    assert!(graph.link(a, b));
    let parent = graph.node(a).unwrap();
    assert_eq!(parent.children, vec![b]);
    assert_eq!(parent.parent, None);
    let child = graph.node(b).unwrap();
    assert_eq!(child.parent, Some(a));
    assert_eq!(child.text.source(), "commit b");
    assert!(graph.node(2).is_none());
}

#[test]
fn test_root_pairs() {
    let mut graph = CommitGraph::new();
    assert_eq!(root_pairs(&graph), vec![]);
    let first = add(&mut graph, 'a', 10, vec![], false, true);
    assert_eq!(root_pairs(&graph), vec![]);
    let child = add(&mut graph, 'b', 20, vec![oid('a')], false, true);
    graph.link(first, child);
    add(&mut graph, 'c', 30, vec![], false, true);
    assert_eq!(root_pairs(&graph), vec![(oid('a'), oid('c'))]);
    add(&mut graph, 'd', 40, vec![], false, true);
    assert_eq!(
        root_pairs(&graph),
        vec![(oid('a'), oid('c')), (oid('a'), oid('d')), (oid('c'), oid('d'))]
    );
}
