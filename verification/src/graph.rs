//! The commit graph that the smartlog draws: the commits still worked on, each
//! linked to its nearest ancestor in the graph and to its children there.

use crate::describe::Spans;
use crate::oid::Oid;
use crate::styled::{styled_clone, styled_spans};
use cursive::utils::markup::StyledString;
use vstd::prelude::*;

verus! {

/// When a commit was made: seconds since the UNIX epoch, and the offset of the
/// committer's time zone in minutes. Times are ordered by the seconds first.
#[derive(Clone, Copy, Debug, PartialEq, Eq, Structural)]
pub struct CommitTime {
    pub seconds: i64,
    pub offset_minutes: i32,
}

/// A commit of the graph.
pub struct Node {
    pub oid: Oid,
    /// The commit's description for the smartlog, as rendered.
    pub text: StyledString,
    pub time: CommitTime,
    /// The parents that the commit has in the repository.
    pub parent_oids: Vec<Oid>,
    /// The nearest ancestor that is in the graph, by its place in the graph.
    pub parent: Option<usize>,
    /// The commits of the graph whose nearest ancestor this is, by their places.
    pub children: Vec<usize>,
    /// The commit is on the main branch.
    pub is_main: bool,
    /// The commit is not hidden.
    pub is_visible: bool,
}

/// A commit of the graph as a plain value.
pub struct NodeView {
    pub oid: Oid,
    pub text: Spans,
    pub time: CommitTime,
    pub parent_oids: Seq<Oid>,
    pub parent: Option<usize>,
    pub children: Seq<usize>,
    pub is_main: bool,
    pub is_visible: bool,
}

impl View for Node {
    type V = NodeView;

    open spec fn view(&self) -> NodeView {
        NodeView {
            oid: self.oid,
            text: styled_spans(self.text),
            time: self.time,
            parent_oids: self.parent_oids@,
            parent: self.parent,
            children: self.children@,
            is_main: self.is_main,
            is_visible: self.is_visible,
        }
    }
}

/// Every link of `nodes` leads to a node of `nodes`, and no two nodes are the
/// same commit.
pub open spec fn links_are_sound(nodes: Seq<NodeView>) -> bool {
    &&& forall|i: int, k: int|
        0 <= i < nodes.len() && 0 <= k < nodes[i].children.len() ==> #[trigger] nodes[i].children[k]
            < nodes.len()
    &&& forall|i: int|
        0 <= i < nodes.len() ==> (#[trigger] nodes[i].parent matches Some(p) ==> p < nodes.len())
    &&& forall|i: int, j: int|
        0 <= i < j < nodes.len() ==> (#[trigger] nodes[i]).oid != (#[trigger] nodes[j]).oid
}

/// The commits to draw. Commits live in a vector and name each other by their
/// places in it.
pub struct CommitGraph {
    nodes: Vec<Node>,
}

impl View for CommitGraph {
    type V = Seq<NodeView>;

    closed spec fn view(&self) -> Seq<NodeView> {
        self.nodes@.map_values(|node: Node| node@)
    }
}

impl CommitGraph {
    /// A graph without commits.
    pub fn new() -> (graph: CommitGraph)
        ensures
            graph@.len() == 0,
            links_are_sound(graph@),
    {
        CommitGraph { nodes: Vec::new() }
    }

    /// A graph has no more commits than a machine word counts.
    pub proof fn lemma_len_fits(&self)
        ensures
            self@.len() <= usize::MAX,
    {
        assert(self@.len() == self.nodes.len());
    }

    /// The number of commits.
    pub fn len(&self) -> (count: usize)
        ensures
            count == self@.len(),
    {
        self.nodes.len()
    }

    /// The place of the commit `oid`, if it is in the graph.
    pub fn find(&self, oid: Oid) -> (place: Option<usize>)
        ensures
            match place {
                Some(at) => at < self@.len() && self@[at as int].oid == oid && forall|i: int|
                    0 <= i < at ==> self@[i].oid != oid,
                None => forall|i: int| 0 <= i < self@.len() ==> self@[i].oid != oid,
            },
    {
        let mut i: usize = 0;
        while i < self.nodes.len()
            invariant
                i <= self.nodes.len(),
                forall|k: int| 0 <= k < i ==> self@[k].oid != oid,
            decreases self.nodes.len() - i,
        {
            if self.nodes[i].oid == oid {
                return Some(i);
            }
            i += 1;
        }
        None
    }

    /// The commit at `place`.
    pub fn node(&self, place: usize) -> (node: Option<&Node>)
        ensures
            match node {
                Some(found) => place < self@.len() && found@ == self@[place as int],
                None => place >= self@.len(),
            },
    {
        if place < self.nodes.len() {
            Some(&self.nodes[place])
        } else {
            None
        }
    }

    /// Adds a commit without links, unless the graph has the commit already.
    /// Gives the place of the new commit.
    pub fn add_node(
        &mut self,
        oid: Oid,
        text: StyledString,
        time: CommitTime,
        parent_oids: Vec<Oid>,
        is_main: bool,
        is_visible: bool,
    ) -> (place: Option<usize>)
        ensures
            match place {
                Some(at) => {
                    &&& at == old(self)@.len()
                    &&& forall|i: int| 0 <= i < old(self)@.len() ==> old(self)@[i].oid != oid
                    &&& final(self)@ == old(self)@.push(
                        NodeView {
                            oid,
                            text: styled_spans(text),
                            time,
                            parent_oids: parent_oids@,
                            parent: None,
                            children: Seq::empty(),
                            is_main,
                            is_visible,
                        },
                    )
                },
                None => {
                    &&& final(self)@ == old(self)@
                    &&& exists|i: int| 0 <= i < old(self)@.len() && old(self)@[i].oid == oid
                },
            },
            links_are_sound(old(self)@) ==> links_are_sound(final(self)@),
    {
        if self.find(oid).is_some() {
            return None;
        }
        let at = self.nodes.len();
        let node = Node {
            oid,
            text,
            time,
            parent_oids,
            parent: None,
            children: Vec::new(),
            is_main,
            is_visible,
        };
        self.nodes.push(node);
        proof {
            assert(self@ =~= old(self)@.push(node@));
        }
        Some(at)
    }

    /// Makes the commit at `parent` the nearest ancestor of the commit at
    /// `child`, and that commit its last child. Does nothing if either place
    /// is outside the graph.
    pub fn link(&mut self, parent: usize, child: usize) -> (linked: bool)
        ensures
            linked == (parent < old(self)@.len() && child < old(self)@.len()),
            final(self)@ == if linked {
                spec_link(old(self)@, parent, child)
            } else {
                old(self)@
            },
            links_are_sound(old(self)@) ==> links_are_sound(final(self)@),
    {
        if parent >= self.nodes.len() || child >= self.nodes.len() {
            return false;
        }
        self.nodes[child].parent = Some(parent);
        self.nodes[parent].children.push(child);
        proof {
            let with_parent = old(self)@.update(
                child as int,
                NodeView { parent: Some(parent), ..old(self)@[child as int] },
            );
            assert(self@ =~= with_parent.update(
                parent as int,
                NodeView {
                    children: with_parent[parent as int].children.push(child),
                    ..with_parent[parent as int]
                },
            ));
        }
        true
    }
    /// Whether the commit at `place` has, at most `depth` links below it, a
    /// commit that is not on the main branch.
    fn has_work_below(&self, place: usize, depth: usize) -> (found: bool)
        requires
            place < self@.len(),
        ensures
            found == has_work_below(self@, place, depth as nat),
        decreases depth,
    {
        if depth == 0 {
            return false;
        }
        let children = &self.nodes[place].children;
        let mut k: usize = 0;
        while k < children.len()
            invariant
                k <= children.len(),
                depth > 0,
                place < self@.len(),
                children@ == self@[place as int].children,
                work_among(self@, children@, k as int, (depth - 1) as nat) == has_work_below(
                    self@,
                    place,
                    depth as nat,
                ),
            decreases children.len() - k,
        {
            let child = children[k];
            if child < self.nodes.len() {
                if !self.nodes[child].is_main || self.has_work_below(child, depth - 1) {
                    return true;
                }
            }
            k += 1;
        }
        false
    }

    /// The graph without the commits of the main branch that nothing is built
    /// on: those that have no commit off the main branch below them. The
    /// commits that stay keep their order, and their links to each other.
    pub fn without_idle_main_commits(&self) -> (pruned: CommitGraph)
        ensures
            pruned@ == spec_without_idle_main_commits(self@),
    {
        let count = self.nodes.len();
        let mut kept: Vec<bool> = Vec::new();
        let mut places: Vec<usize> = Vec::new();
        let mut next: usize = 0;
        let mut i: usize = 0;
        while i < count
            invariant
                i <= count,
                count == self@.len(),
                kept.len() == i,
                places.len() == i,
                next == kept_before(self@, i as nat),
                next <= i,
                forall|j: int| 0 <= j < i ==> kept[j] == is_kept(self@, j),
                forall|j: int| 0 <= j < i ==> places[j] == kept_before(self@, j as nat),
            decreases count - i,
        {
            let keep = !self.nodes[i].is_main || self.has_work_below(i, count);
            kept.push(keep);
            places.push(next);
            if keep {
                next += 1;
            }
            i += 1;
        }
        let mut nodes: Vec<Node> = Vec::new();
        i = 0;
        assert(nodes@.map_values(|node: Node| node@) =~= kept_nodes(self@, 0));
        while i < count
            invariant
                i <= count,
                count == self@.len(),
                kept.len() == count,
                places.len() == count,
                forall|j: int| 0 <= j < count ==> kept[j] == is_kept(self@, j),
                forall|j: int| 0 <= j < count ==> places[j] == kept_before(self@, j as nat),
                nodes@.map_values(|node: Node| node@) == kept_nodes(self@, i as nat),
            decreases count - i,
        {
            let ghost before = nodes@.map_values(|node: Node| node@);
            if kept[i] {
                let old = &self.nodes[i];
                let parent = match old.parent {
                    Some(p) => if p < count && kept[p] {
                        Some(places[p])
                    } else {
                        None
                    },
                    None => None,
                };
                let mut children: Vec<usize> = Vec::new();
                let mut k: usize = 0;
                assert(old.children@.take(0) =~= Seq::<usize>::empty());
                while k < old.children.len()
                    invariant
                        k <= old.children.len(),
                        count == self@.len(),
                        kept.len() == count,
                        places.len() == count,
                        forall|j: int| 0 <= j < count ==> kept[j] == is_kept(self@, j),
                        forall|j: int| 0 <= j < count ==> places[j] == kept_before(self@, j as nat),
                        children@ == remapped_children(self@, old.children@.take(k as int)),
                    decreases old.children.len() - k,
                {
                    let child = old.children[k];
                    proof {
                        assert(old.children@.take(k + 1).drop_last() =~= old.children@.take(
                            k as int,
                        ));
                        assert(old.children@.take(k + 1).last() == child);
                    }
                    if child < count && kept[child] {
                        children.push(places[child]);
                    }
                    k += 1;
                }
                assert(old.children@.take(old.children.len() as int) =~= old.children@);
                let mut parent_oids: Vec<Oid> = Vec::new();
                let mut m: usize = 0;
                while m < old.parent_oids.len()
                    invariant
                        m <= old.parent_oids.len(),
                        parent_oids@ == old.parent_oids@.take(m as int),
                    decreases old.parent_oids.len() - m,
                {
                    parent_oids.push(old.parent_oids[m]);
                    m += 1;
                    assert(parent_oids@ =~= old.parent_oids@.take(m as int));
                }
                assert(old.parent_oids@.take(old.parent_oids.len() as int) =~= old.parent_oids@);
                let node = Node {
                    oid: old.oid,
                    text: styled_clone(&old.text),
                    time: old.time,
                    parent_oids,
                    parent,
                    children,
                    is_main: old.is_main,
                    is_visible: old.is_visible,
                };
                assert(node@ == remapped_node(self@, i as int));
                nodes.push(node);
                assert(nodes@.map_values(|node: Node| node@) =~= before.push(
                    remapped_node(self@, i as int),
                ));
            }
            i += 1;
        }
        CommitGraph { nodes }
    }

    /// The place of the first of `oids` that is in the graph.
    pub fn find_first(&self, oids: &Vec<Oid>) -> (place: Option<usize>)
        ensures
            place == spec_find_first(self@, oids@),
    {
        let mut i: usize = 0;
        assert(oids@.skip(0) =~= oids@);
        assert(self@.len() == self.nodes.len());
        while i < oids.len()
            invariant
                i <= oids.len(),
                self@.len() <= usize::MAX,
                spec_find_first(self@, oids@.skip(i as int)) == spec_find_first(self@, oids@),
            decreases oids.len() - i,
        {
            let found = self.find(oids[i]);
            proof {
                assert(oids@.skip(i as int).drop_first() =~= oids@.skip(i + 1));
                assert(oids@.skip(i as int)[0] == oids@[i as int]);
                lemma_place_of(self@, oids@[i as int], found);
            }
            if found.is_some() {
                return found;
            }
            i += 1;
        }
        None
    }

    /// Links the commit at `child` to its nearest ancestor in the graph, as far
    /// as its parents tell: to the first of its parents that is in the graph.
    /// Does nothing if the place is outside the graph or no parent is in it.
    pub fn link_to_first_parent(&mut self, child: usize) -> (linked: bool)
        ensures
            linked == (child < old(self)@.len() && spec_find_first(
                old(self)@,
                old(self)@[child as int].parent_oids,
            ) is Some),
            final(self)@ == if linked {
                spec_link(
                    old(self)@,
                    spec_find_first(old(self)@, old(self)@[child as int].parent_oids)->Some_0,
                    child,
                )
            } else {
                old(self)@
            },
            links_are_sound(old(self)@) ==> links_are_sound(final(self)@),
    {
        if child >= self.nodes.len() {
            return false;
        }
        let parent = self.find_first(&self.nodes[child].parent_oids);
        match parent {
            Some(parent) => {
                proof {
                    lemma_find_first_in_graph(self@, self@[child as int].parent_oids);
                }
                self.link(parent, child)
            },
            None => false,
        }
    }
}

/// Whether one of `children[k..]` is, or has at most `depth` links below it, a
/// commit that is not on the main branch.
pub open spec fn work_among(nodes: Seq<NodeView>, children: Seq<usize>, k: int, depth: nat) -> bool
    decreases depth, 1 + children.len() - k,
{
    if k < 0 || k >= children.len() {
        false
    } else {
        let child = children[k];
        (child < nodes.len() && (!nodes[child as int].is_main || has_work_below(
            nodes,
            child,
            depth,
        ))) || work_among(nodes, children, k + 1, depth)
    }
}

/// Whether the commit at `place` has, at most `depth` links below it, a commit
/// that is not on the main branch.
pub open spec fn has_work_below(nodes: Seq<NodeView>, place: usize, depth: nat) -> bool
    decreases depth, 0nat,
{
    depth > 0 && work_among(nodes, nodes[place as int].children, 0, (depth - 1) as nat)
}

/// Whether the commit at `place` stays when the idle commits of the main branch
/// go: it does if it is off the main branch or something off it is built on it.
pub open spec fn is_kept(nodes: Seq<NodeView>, place: int) -> bool {
    !nodes[place].is_main || has_work_below(nodes, place as usize, nodes.len())
}

/// How many of the commits before `place` stay: the place that the commit at
/// `place` has among those that stay.
pub open spec fn kept_before(nodes: Seq<NodeView>, place: nat) -> nat
    decreases place,
{
    if place == 0 {
        0
    } else if is_kept(nodes, place - 1) {
        kept_before(nodes, (place - 1) as nat) + 1
    } else {
        kept_before(nodes, (place - 1) as nat)
    }
}

/// Those of `children` that stay, by their new places.
pub open spec fn remapped_children(nodes: Seq<NodeView>, children: Seq<usize>) -> Seq<usize>
    decreases children.len(),
{
    if children.len() == 0 {
        Seq::empty()
    } else if children.last() < nodes.len() && is_kept(nodes, children.last() as int) {
        remapped_children(nodes, children.drop_last()).push(
            kept_before(nodes, children.last() as nat) as usize,
        )
    } else {
        remapped_children(nodes, children.drop_last())
    }
}

/// The commit at `place` with its links told by the new places.
pub open spec fn remapped_node(nodes: Seq<NodeView>, place: int) -> NodeView {
    NodeView {
        parent: match nodes[place].parent {
            Some(p) => if p < nodes.len() && is_kept(nodes, p as int) {
                Some(kept_before(nodes, p as nat) as usize)
            } else {
                None
            },
            None => None,
        },
        children: remapped_children(nodes, nodes[place].children),
        ..nodes[place]
    }
}

/// Those of the first `count` commits that stay, in order, with their links
/// told by the new places.
pub open spec fn kept_nodes(nodes: Seq<NodeView>, count: nat) -> Seq<NodeView>
    decreases count,
{
    if count == 0 {
        Seq::empty()
    } else if is_kept(nodes, count - 1) {
        kept_nodes(nodes, (count - 1) as nat).push(remapped_node(nodes, count - 1))
    } else {
        kept_nodes(nodes, (count - 1) as nat)
    }
}

/// The graph without the idle commits of the main branch.
pub open spec fn spec_without_idle_main_commits(nodes: Seq<NodeView>) -> Seq<NodeView> {
    kept_nodes(nodes, nodes.len())
}

/// The place of the commit `oid` in `nodes`: the first place that holds it.
pub open spec fn spec_place_of(nodes: Seq<NodeView>, oid: Oid) -> Option<usize>
    decreases nodes.len(),
{
    if nodes.len() == 0 {
        None
    } else {
        match spec_place_of(nodes.drop_last(), oid) {
            Some(place) => Some(place),
            None => if nodes.last().oid == oid {
                Some((nodes.len() - 1) as usize)
            } else {
                None
            },
        }
    }
}

/// The place of the first of `oids` that is in `nodes`.
pub open spec fn spec_find_first(nodes: Seq<NodeView>, oids: Seq<Oid>) -> Option<usize>
    decreases oids.len(),
{
    if oids.len() == 0 {
        None
    } else {
        match spec_place_of(nodes, oids[0]) {
            Some(place) => Some(place),
            None => spec_find_first(nodes, oids.drop_first()),
        }
    }
}

/// `nodes` with the commit at `parent` made the nearest ancestor of the commit
/// at `child`, and that commit its last child.
pub open spec fn spec_link(nodes: Seq<NodeView>, parent: usize, child: usize) -> Seq<NodeView> {
    let with_parent = nodes.update(
        child as int,
        NodeView { parent: Some(parent), ..nodes[child as int] },
    );
    with_parent.update(
        parent as int,
        NodeView {
            children: with_parent[parent as int].children.push(child),
            ..with_parent[parent as int]
        },
    )
}

/// The first place that holds a commit is its place.
pub proof fn lemma_place_of(nodes: Seq<NodeView>, oid: Oid, found: Option<usize>)
    requires
        nodes.len() <= usize::MAX,
        match found {
            Some(at) => at < nodes.len() && nodes[at as int].oid == oid && forall|i: int|
                0 <= i < at ==> nodes[i].oid != oid,
            None => forall|i: int| 0 <= i < nodes.len() ==> nodes[i].oid != oid,
        },
    ensures
        spec_place_of(nodes, oid) == found,
    decreases nodes.len(),
{
    if nodes.len() > 0 {
        let init = nodes.drop_last();
        match found {
            Some(at) => {
                if at < init.len() {
                    lemma_place_of(init, oid, found);
                } else {
                    lemma_place_of(init, oid, None);
                }
            },
            None => {
                lemma_place_of(init, oid, None);
            },
        }
    }
}

/// A place that is found is a place of the graph.
pub proof fn lemma_find_first_in_graph(nodes: Seq<NodeView>, oids: Seq<Oid>)
    requires
        nodes.len() <= usize::MAX,
    ensures
        spec_find_first(nodes, oids) matches Some(place) ==> place < nodes.len(),
    decreases oids.len(),
{
    if oids.len() > 0 {
        lemma_place_in_graph(nodes, oids[0]);
        lemma_find_first_in_graph(nodes, oids.drop_first());
    }
}

/// The place of a commit is a place of the graph.
pub proof fn lemma_place_in_graph(nodes: Seq<NodeView>, oid: Oid)
    requires
        nodes.len() <= usize::MAX,
    ensures
        spec_place_of(nodes, oid) matches Some(place) ==> place < nodes.len() && nodes[place as int].oid
            == oid,
    decreases nodes.len(),
{
    if nodes.len() > 0 {
        lemma_place_in_graph(nodes.drop_last(), oid);
    }
}

} // verus!
