//! Building the commit graph: which commits the graph starts from, and how far
//! the walk towards the main branch goes. Reading the commits is left to the
//! caller.

use crate::graph::{spec_place_of, CommitGraph};
use crate::oid::Oid;
use crate::replay::{push_new_oid, with_all_new, with_new, CommitState};
use vstd::prelude::*;

verus! {

/// The commits that the graph starts from: the tip of the main branch, the
/// commits that branches name, the commit that is checked out, and the active
/// commits; each once, in this order.
pub open spec fn spec_seed_oids(
    main_branch_oid: Oid,
    branch_oids: Seq<Oid>,
    head_oid: Option<Oid>,
    active_oids: Seq<Oid>,
) -> Seq<Oid> {
    let with_branches = with_all_new(seq![main_branch_oid], branch_oids);
    let with_head = match head_oid {
        Some(oid) => with_new(with_branches, oid),
        None => with_branches,
    };
    with_all_new(with_head, active_oids)
}

/// Adds each of `more` to `oids` that is not there already.
fn push_all_new(oids: &mut Vec<Oid>, more: &Vec<Oid>)
    ensures
        final(oids)@ == with_all_new(old(oids)@, more@),
{
    let mut i: usize = 0;
    assert(more@.take(0) =~= Seq::<Oid>::empty());
    while i < more.len()
        invariant
            i <= more.len(),
            oids@ == with_all_new(old(oids)@, more@.take(i as int)),
        decreases more.len() - i,
    {
        proof {
            assert(more@.take(i + 1).drop_last() =~= more@.take(i as int));
            assert(more@.take(i + 1).last() == more@[i as int]);
        }
        push_new_oid(oids, more[i]);
        i += 1;
    }
    assert(more@.take(more.len() as int) =~= more@);
}

/// The commits that the graph starts from.
pub fn seed_oids(
    main_branch_oid: Oid,
    branch_oids: &Vec<Oid>,
    head_oid: Option<Oid>,
    active_oids: &Vec<Oid>,
) -> (seeds: Vec<Oid>)
    ensures
        seeds@ == spec_seed_oids(main_branch_oid, branch_oids@, head_oid, active_oids@),
{
    let mut seeds: Vec<Oid> = Vec::new();
    seeds.push(main_branch_oid);
    assert(seeds@ =~= seq![main_branch_oid]);
    push_all_new(&mut seeds, branch_oids);
    match head_oid {
        Some(oid) => {
            push_new_oid(&mut seeds, oid);
        },
        None => {},
    }
    push_all_new(&mut seeds, active_oids);
    seeds
}

/// Whether a commit met on the walk from a seed is on the main branch: it is
/// if it is the tip of the main branch or the merge base of the seed and the
/// main branch.
pub fn is_on_main_branch(oid: Oid, main_branch_oid: Oid, merge_base_oid: Option<Oid>) -> (is_main:
    bool)
    ensures
        is_main == (oid == main_branch_oid || merge_base_oid == Some(oid)),
{
    let is_merge_base = match merge_base_oid {
        Some(base) => base == oid,
        None => false,
    };
    oid == main_branch_oid || is_merge_base
}

/// Where the walk from a seed goes after the commit `oid`: to the first parent
/// of the commit; nowhere if the commit is on the main branch or has no parent.
pub fn next_in_walk(
    oid: Oid,
    first_parent_oid: Option<Oid>,
    main_branch_oid: Oid,
    merge_base_oid: Option<Oid>,
) -> (next: Option<Oid>)
    ensures
        next == if oid == main_branch_oid || merge_base_oid == Some(oid) {
            None
        } else {
            first_parent_oid
        },
{
    if is_on_main_branch(oid, main_branch_oid, merge_base_oid) {
        None
    } else {
        first_parent_oid
    }
}

/// What the walk from a seed does at a commit.
#[derive(Clone, Copy, Debug, PartialEq, Eq, Structural)]
pub enum WalkStep {
    /// The walk ends here, and the commit is not added.
    Stop,
    /// The commit is added to the graph, and the walk goes on to `next`, if
    /// there is one.
    Add { is_main: bool, next: Option<Oid> },
}

/// What the walk from a seed does at the commit `oid`. It stops at a commit that
/// the graph holds already and at one that the repository lacks. Any other
/// commit is added, as a commit of the main branch if it is its tip or the
/// merge base of the seed, and the walk goes on to its first parent unless the
/// commit is on the main branch.
pub open spec fn spec_walk_step(
    is_in_graph: bool,
    is_in_repository: bool,
    oid: Oid,
    first_parent_oid: Option<Oid>,
    main_branch_oid: Oid,
    merge_base_oid: Option<Oid>,
) -> WalkStep {
    if is_in_graph || !is_in_repository {
        WalkStep::Stop
    } else {
        let is_main = oid == main_branch_oid || merge_base_oid == Some(oid);
        WalkStep::Add {
            is_main,
            next: if is_main {
                None
            } else {
                first_parent_oid
            },
        }
    }
}

/// What the walk from a seed does at the commit `oid`. `is_in_repository`
/// tells whether the repository has the commit, and `first_parent_oid` is its
/// first parent there.
pub fn walk_step(
    graph: &CommitGraph,
    oid: Oid,
    is_in_repository: bool,
    first_parent_oid: Option<Oid>,
    main_branch_oid: Oid,
    merge_base_oid: Option<Oid>,
) -> (step: WalkStep)
    ensures
        step == spec_walk_step(
            spec_place_of(graph@, oid) is Some,
            is_in_repository,
            oid,
            first_parent_oid,
            main_branch_oid,
            merge_base_oid,
        ),
{
    let place = graph.find(oid);
    proof {
        assert(graph@.len() <= usize::MAX) by {
            graph.lemma_len_fits();
        }
        crate::graph::lemma_place_of(graph@, oid, place);
    }
    if place.is_some() || !is_in_repository {
        WalkStep::Stop
    } else {
        WalkStep::Add {
            is_main: is_on_main_branch(oid, main_branch_oid, merge_base_oid),
            next: next_in_walk(oid, first_parent_oid, main_branch_oid, merge_base_oid),
        }
    }
}

/// What the walk along the main branch does at a commit.
#[derive(Clone, Copy, Debug, PartialEq, Eq, Structural)]
pub struct MainBranchStep {
    /// The commit is added to the graph, as a commit of the main branch.
    pub add: bool,
    /// Where the walk goes on, if it does.
    pub next: Option<Oid>,
}

/// Whether a commit is shown as visible: it is if the log says so, or if it is
/// on the main branch.
pub fn is_node_visible(state: CommitState, is_main: bool) -> (is_visible: bool)
    ensures
        is_visible == (state.is_visible || is_main),
{
    state.is_visible || is_main
}

/// The walk along the main branch, from its tip back to the oldest merge base
/// that the graph holds. It keeps the merge bases that it has not met yet.
pub struct MainBranchWalk {
    pending: Vec<Oid>,
}

impl View for MainBranchWalk {
    type V = Seq<Oid>;

    closed spec fn view(&self) -> Seq<Oid> {
        self.pending@
    }
}

/// `oids` without `oid`.
pub open spec fn without(oids: Seq<Oid>, oid: Oid) -> Seq<Oid>
    decreases oids.len(),
{
    if oids.len() == 0 {
        Seq::empty()
    } else if oids.last() == oid {
        without(oids.drop_last(), oid)
    } else {
        without(oids.drop_last(), oid).push(oids.last())
    }
}

impl MainBranchWalk {
    /// A walk that is to meet the merge bases `merge_base_oids`.
    pub fn new(merge_base_oids: Vec<Oid>) -> (walk: MainBranchWalk)
        ensures
            walk@ == merge_base_oids@,
    {
        MainBranchWalk { pending: merge_base_oids }
    }

    /// Whether the walk has further to go: it has while a merge base is left
    /// to meet.
    pub fn is_unfinished(&self) -> (unfinished: bool)
        ensures
            unfinished == (self@.len() > 0),
    {
        self.pending.len() > 0
    }

    /// Takes in that the walk has come to the commit `oid`, and tells what to
    /// do there. The commit is added unless the graph holds it already or the
    /// repository lacks it. The walk goes on to the first parent while a merge
    /// base is left to meet and the repository has the commit.
    pub fn step(
        &mut self,
        graph: &CommitGraph,
        oid: Oid,
        is_in_repository: bool,
        first_parent_oid: Option<Oid>,
    ) -> (step: MainBranchStep)
        ensures
            final(self)@ == without(old(self)@, oid),
            step.add == (is_in_repository && spec_place_of(graph@, oid) is None),
            step.next == if is_in_repository && final(self)@.len() > 0 {
                first_parent_oid
            } else {
                None
            },
    {
        self.visit(oid);
        let place = graph.find(oid);
        proof {
            assert(graph@.len() <= usize::MAX) by {
                graph.lemma_len_fits();
            }
            crate::graph::lemma_place_of(graph@, oid, place);
        }
        MainBranchStep {
            add: is_in_repository && place.is_none(),
            next: if is_in_repository && self.is_unfinished() {
                first_parent_oid
            } else {
                None
            },
        }
    }

    /// Takes in that the walk has come to the commit `oid`: the commit is no
    /// longer to be met.
    pub fn visit(&mut self, oid: Oid)
        ensures
            final(self)@ == without(old(self)@, oid),
    {
        let mut left: Vec<Oid> = Vec::new();
        let mut i: usize = 0;
        assert(self.pending@.take(0) =~= Seq::<Oid>::empty());
        while i < self.pending.len()
            invariant
                i <= self.pending.len(),
                self.pending@ == old(self).pending@,
                left@ == without(self.pending@.take(i as int), oid),
            decreases self.pending.len() - i,
        {
            proof {
                assert(self.pending@.take(i + 1).drop_last() =~= self.pending@.take(i as int));
                assert(self.pending@.take(i + 1).last() == self.pending@[i as int]);
            }
            if self.pending[i] != oid {
                left.push(self.pending[i]);
            }
            i += 1;
        }
        assert(self.pending@.take(self.pending.len() as int) =~= self.pending@);
        self.pending = left;
    }
}

} // verus!
