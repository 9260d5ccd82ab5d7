//! Remembered merge bases: the answers of the repository to "what is the
//! nearest common ancestor of these two commits", kept by unordered pair.

use crate::oid::Oid;
use vstd::prelude::*;

verus! {

/// One remembered answer. The pair is kept with the smaller identifier first.
#[derive(Clone, Copy, Debug, PartialEq, Eq, Structural)]
pub struct MergeBaseRow {
    pub lhs_oid: Oid,
    pub rhs_oid: Oid,
    /// The merge base, or none if the two commits have no common ancestor.
    pub merge_base_oid: Option<Oid>,
}

/// The remembered answers.
pub struct MergeBaseCache {
    rows: Vec<MergeBaseRow>,
}

/// The pair `(a, b)` with the smaller identifier first.
pub open spec fn canonical_pair(a: Oid, b: Oid) -> (Oid, Oid) {
    if a@ <= b@ {
        (a, b)
    } else {
        (b, a)
    }
}

/// The answer that `rows` holds for the pair of `a` and `b`, in either order:
/// that of the first row for the pair, if there is one.
pub open spec fn spec_lookup(rows: Seq<MergeBaseRow>, a: Oid, b: Oid) -> Option<Option<Oid>>
    decreases rows.len(),
{
    if rows.len() == 0 {
        None
    } else if (rows[0].lhs_oid, rows[0].rhs_oid) == canonical_pair(a, b) {
        Some(rows[0].merge_base_oid)
    } else {
        spec_lookup(rows.drop_first(), a, b)
    }
}

/// The place of the first row of `rows` for the pair `(first, second)`, if there
/// is one.
pub open spec fn spec_find_pair(rows: Seq<MergeBaseRow>, first: Oid, second: Oid) -> Option<int>
    decreases rows.len(),
{
    if rows.len() == 0 {
        None
    } else {
        match spec_find_pair(rows.drop_last(), first, second) {
            Some(at) => Some(at),
            None => if (rows.last().lhs_oid, rows.last().rhs_oid) == (first, second) {
                Some(rows.len() - 1)
            } else {
                None
            },
        }
    }
}

/// `rows` after `merge_base_oid` was stored for the pair of `a` and `b`: the
/// answer stands in the first row for the pair, or in a new last row.
pub open spec fn spec_store(
    rows: Seq<MergeBaseRow>,
    a: Oid,
    b: Oid,
    merge_base_oid: Option<Oid>,
) -> Seq<MergeBaseRow> {
    let pair = canonical_pair(a, b);
    let row = MergeBaseRow { lhs_oid: pair.0, rhs_oid: pair.1, merge_base_oid };
    match spec_find_pair(rows, pair.0, pair.1) {
        Some(at) => rows.update(at, row),
        None => rows.push(row),
    }
}

proof fn lemma_find_pair_is(rows: Seq<MergeBaseRow>, first: Oid, second: Oid, found: Option<int>)
    requires
        match found {
            Some(at) => {
                &&& 0 <= at < rows.len()
                &&& (rows[at].lhs_oid, rows[at].rhs_oid) == (first, second)
                &&& forall|i: int|
                    0 <= i < at ==> (rows[i].lhs_oid, rows[i].rhs_oid) != (first, second)
            },
            None => forall|i: int|
                0 <= i < rows.len() ==> (rows[i].lhs_oid, rows[i].rhs_oid) != (first, second),
        },
    ensures
        spec_find_pair(rows, first, second) == found,
    decreases rows.len(),
{
    if rows.len() > 0 {
        let init = rows.drop_last();
        match found {
            Some(at) => {
                if at < init.len() {
                    lemma_find_pair_is(init, first, second, found);
                } else {
                    lemma_find_pair_is(init, first, second, None);
                }
            },
            None => {
                lemma_find_pair_is(init, first, second, None);
            },
        }
    }
}

/// Two identifiers with the same number are the same identifier.
pub proof fn lemma_oid_by_number(a: Oid, b: Oid)
    ensures
        (a@ == b@) == (a == b),
{
    if a@ == b@ {
        assert(a.low == b.low && a.high == b.high) by (nonlinear_arith)
            requires
                a.high as nat * 0x1_0000_0000 + a.low as nat == b.high as nat * 0x1_0000_0000
                    + b.low as nat,
                a.low < 0x1_0000_0000,
                b.low < 0x1_0000_0000,
        ;
    }
}

/// After an answer was stored it is the answer for its pair, asked about in
/// either order, and every other pair has the answer it had.
pub proof fn lemma_lookup_after_store(
    rows: Seq<MergeBaseRow>,
    lhs: Oid,
    rhs: Oid,
    merge_base_oid: Option<Oid>,
    a: Oid,
    b: Oid,
)
    ensures
        spec_lookup(spec_store(rows, lhs, rhs, merge_base_oid), a, b) == if canonical_pair(a, b)
            == canonical_pair(lhs, rhs) {
            Some(merge_base_oid)
        } else {
            spec_lookup(rows, a, b)
        },
{
    let pair = canonical_pair(lhs, rhs);
    let row = MergeBaseRow { lhs_oid: pair.0, rhs_oid: pair.1, merge_base_oid };
    lemma_find_pair_found(rows, pair.0, pair.1);
    match spec_find_pair(rows, pair.0, pair.1) {
        Some(at) => {
            lemma_lookup_after_update(rows, at, row, a, b);
        },
        None => {
            lemma_lookup_after_push(rows, row, a, b);
        },
    }
}

proof fn lemma_find_pair_found(rows: Seq<MergeBaseRow>, first: Oid, second: Oid)
    ensures
        match spec_find_pair(rows, first, second) {
            Some(at) => {
                &&& 0 <= at < rows.len()
                &&& (rows[at].lhs_oid, rows[at].rhs_oid) == (first, second)
                &&& forall|i: int|
                    0 <= i < at ==> (rows[i].lhs_oid, rows[i].rhs_oid) != (first, second)
            },
            None => forall|i: int|
                0 <= i < rows.len() ==> (rows[i].lhs_oid, rows[i].rhs_oid) != (first, second),
        },
    decreases rows.len(),
{
    if rows.len() > 0 {
        lemma_find_pair_found(rows.drop_last(), first, second);
        let init = rows.drop_last();
        assert forall|i: int| 0 <= i < init.len() implies init[i] == rows[i] by {}
    }
}

/// The order in which a pair is asked about does not matter.
pub proof fn lemma_lookup_is_symmetric(rows: Seq<MergeBaseRow>, a: Oid, b: Oid)
    ensures
        spec_lookup(rows, a, b) == spec_lookup(rows, b, a),
    decreases rows.len(),
{
    lemma_oid_by_number(a, b);
    assert(canonical_pair(a, b) == canonical_pair(b, a));
    if rows.len() > 0 {
        lemma_lookup_is_symmetric(rows.drop_first(), a, b);
    }
}

impl View for MergeBaseCache {
    type V = Seq<MergeBaseRow>;

    closed spec fn view(&self) -> Seq<MergeBaseRow> {
        self.rows@
    }
}

impl MergeBaseCache {
    /// A cache that remembers nothing yet.
    pub fn new() -> (cache: MergeBaseCache)
        ensures
            cache@.len() == 0,
    {
        MergeBaseCache { rows: Vec::new() }
    }

    /// A cache of the answers `rows`, as they were stored.
    pub fn from_rows(rows: Vec<MergeBaseRow>) -> (cache: MergeBaseCache)
        ensures
            cache@ == rows@,
    {
        MergeBaseCache { rows }
    }

    /// The answers to store.
    pub fn rows(&self) -> (rows: &Vec<MergeBaseRow>)
        ensures
            rows@ == self@,
    {
        &self.rows
    }

    /// The place of the first row for the pair `(first, second)`.
    fn find(&self, first: Oid, second: Oid) -> (place: Option<usize>)
        ensures
            match place {
                Some(at) => {
                    &&& at < self@.len()
                    &&& (self@[at as int].lhs_oid, self@[at as int].rhs_oid) == (first, second)
                    &&& forall|i: int|
                        0 <= i < at ==> (self@[i].lhs_oid, self@[i].rhs_oid) != (first, second)
                },
                None => forall|i: int|
                    0 <= i < self@.len() ==> (self@[i].lhs_oid, self@[i].rhs_oid) != (
                        first,
                        second,
                    ),
            },
    {
        let mut i: usize = 0;
        while i < self.rows.len()
            invariant
                i <= self.rows.len(),
                forall|k: int|
                    0 <= k < i ==> (self@[k].lhs_oid, self@[k].rhs_oid) != (first, second),
            decreases self.rows.len() - i,
        {
            if self.rows[i].lhs_oid == first && self.rows[i].rhs_oid == second {
                return Some(i);
            }
            i += 1;
        }
        None
    }

    /// The remembered merge base of `lhs` and `rhs`, if the pair has been asked
    /// about before. The inner value is the answer: a commit, or none.
    pub fn get_merge_base_oid(&self, lhs: Oid, rhs: Oid) -> (answer: Option<Option<Oid>>)
        ensures
            answer == spec_lookup(self@, lhs, rhs),
    {
        let (first, second) = if rhs.precedes(&lhs) {
            (rhs, lhs)
        } else {
            (lhs, rhs)
        };
        match self.find(first, second) {
            Some(at) => {
                proof {
                    lemma_lookup_at(self@, lhs, rhs, at as int);
                }
                Some(self.rows[at].merge_base_oid)
            },
            None => {
                proof {
                    lemma_lookup_misses(self@, lhs, rhs);
                }
                None
            },
        }
    }

    /// Remembers `merge_base_oid` as the answer for the pair of `lhs` and `rhs`,
    /// in place of an earlier answer if there is one.
    pub fn store(&mut self, lhs: Oid, rhs: Oid, merge_base_oid: Option<Oid>)
        ensures
            final(self)@ == spec_store(old(self)@, lhs, rhs, merge_base_oid),
            forall|a: Oid, b: Oid| #[trigger]
                spec_lookup(final(self)@, a, b) == if canonical_pair(a, b) == canonical_pair(
                    lhs,
                    rhs,
                ) {
                    Some(merge_base_oid)
                } else {
                    spec_lookup(old(self)@, a, b)
                },
    {
        let (first, second) = if rhs.precedes(&lhs) {
            (rhs, lhs)
        } else {
            (lhs, rhs)
        };
        let row = MergeBaseRow { lhs_oid: first, rhs_oid: second, merge_base_oid };
        let found = self.find(first, second);
        proof {
            lemma_find_pair_is(
                self@,
                first,
                second,
                match found {
                    Some(at) => Some(at as int),
                    None => None,
                },
            );
        }
        match found {
            Some(at) => {
                self.rows[at] = row;
                proof {
                    assert forall|a: Oid, b: Oid| #[trigger]
                        spec_lookup(self@, a, b) == if canonical_pair(a, b) == canonical_pair(
                            lhs,
                            rhs,
                        ) {
                            Some(merge_base_oid)
                        } else {
                            spec_lookup(old(self)@, a, b)
                        } by {
                        lemma_lookup_after_update(old(self)@, at as int, row, a, b);
                    }
                }
            },
            None => {
                self.rows.push(row);
                proof {
                    assert forall|a: Oid, b: Oid| #[trigger]
                        spec_lookup(self@, a, b) == if canonical_pair(a, b) == canonical_pair(
                            lhs,
                            rhs,
                        ) {
                            Some(merge_base_oid)
                        } else {
                            spec_lookup(old(self)@, a, b)
                        } by {
                        lemma_lookup_after_push(old(self)@, row, a, b);
                    }
                }
            },
        }
    }

    /// Takes in what the repository said when it was asked for the merge base
    /// of `lhs` and `rhs`: an answer is remembered and handed on; a failure is
    /// handed on, and the cache stays as it is.
    pub fn remember<E>(&mut self, lhs: Oid, rhs: Oid, outcome: Result<Option<Oid>, E>) -> (answer:
        Result<Option<Oid>, E>)
        ensures
            answer == outcome,
            match outcome {
                Ok(merge_base_oid) => final(self)@ == spec_store(
                    old(self)@,
                    lhs,
                    rhs,
                    merge_base_oid,
                ),
                Err(_) => final(self)@ == old(self)@,
            },
    {
        match outcome {
            Ok(merge_base_oid) => {
                self.store(lhs, rhs, merge_base_oid);
                Ok(merge_base_oid)
            },
            Err(error) => Err(error),
        }
    }
}

proof fn lemma_lookup_at(rows: Seq<MergeBaseRow>, a: Oid, b: Oid, at: int)
    requires
        0 <= at < rows.len(),
        (rows[at].lhs_oid, rows[at].rhs_oid) == canonical_pair(a, b),
        forall|i: int| 0 <= i < at ==> (rows[i].lhs_oid, rows[i].rhs_oid) != canonical_pair(a, b),
    ensures
        spec_lookup(rows, a, b) == Some(rows[at].merge_base_oid),
    decreases at,
{
    if at > 0 {
        let rest = rows.drop_first();
        assert forall|i: int| 0 <= i < at - 1 implies (rest[i].lhs_oid, rest[i].rhs_oid)
            != canonical_pair(a, b) by {
            assert(rest[i] == rows[i + 1]);
        }
        lemma_lookup_at(rest, a, b, at - 1);
    }
}

proof fn lemma_lookup_misses(rows: Seq<MergeBaseRow>, a: Oid, b: Oid)
    requires
        forall|i: int|
            0 <= i < rows.len() ==> (rows[i].lhs_oid, rows[i].rhs_oid) != canonical_pair(a, b),
    ensures
        spec_lookup(rows, a, b) is None,
    decreases rows.len(),
{
    if rows.len() > 0 {
        let rest = rows.drop_first();
        assert forall|i: int| 0 <= i < rest.len() implies (rest[i].lhs_oid, rest[i].rhs_oid)
            != canonical_pair(a, b) by {
            assert(rest[i] == rows[i + 1]);
        }
        lemma_lookup_misses(rest, a, b);
    }
}

proof fn lemma_lookup_after_push(rows: Seq<MergeBaseRow>, row: MergeBaseRow, a: Oid, b: Oid)
    requires
        forall|i: int|
            0 <= i < rows.len() ==> (rows[i].lhs_oid, rows[i].rhs_oid) != (
                row.lhs_oid,
                row.rhs_oid,
            ),
    ensures
        spec_lookup(rows.push(row), a, b) == if canonical_pair(a, b) == (row.lhs_oid, row.rhs_oid) {
            Some(row.merge_base_oid)
        } else {
            spec_lookup(rows, a, b)
        },
    decreases rows.len(),
{
    if rows.len() == 0 {
        assert(rows.push(row).drop_first() =~= rows);
    } else {
        let rest = rows.drop_first();
        assert(rows.push(row).drop_first() =~= rest.push(row));
        assert forall|i: int| 0 <= i < rest.len() implies (rest[i].lhs_oid, rest[i].rhs_oid) != (
            row.lhs_oid,
            row.rhs_oid,
        ) by {
            assert(rest[i] == rows[i + 1]);
        }
        lemma_lookup_after_push(rest, row, a, b);
    }
}

proof fn lemma_lookup_after_update(
    rows: Seq<MergeBaseRow>,
    at: int,
    row: MergeBaseRow,
    a: Oid,
    b: Oid,
)
    requires
        0 <= at < rows.len(),
        (rows[at].lhs_oid, rows[at].rhs_oid) == (row.lhs_oid, row.rhs_oid),
        forall|i: int|
            0 <= i < at ==> (rows[i].lhs_oid, rows[i].rhs_oid) != (row.lhs_oid, row.rhs_oid),
    ensures
        spec_lookup(rows.update(at, row), a, b) == if canonical_pair(a, b) == (
            row.lhs_oid,
            row.rhs_oid,
        ) {
            Some(row.merge_base_oid)
        } else {
            spec_lookup(rows, a, b)
        },
    decreases at,
{
    let rest = rows.drop_first();
    if at == 0 {
        assert(rows.update(at, row).drop_first() =~= rest);
    } else {
        assert(rows.update(at, row).drop_first() =~= rest.update(at - 1, row));
        assert forall|i: int| 0 <= i < at - 1 implies (rest[i].lhs_oid, rest[i].rhs_oid) != (
            row.lhs_oid,
            row.rhs_oid,
        ) by {
            assert(rest[i] == rows[i + 1]);
        }
        lemma_lookup_after_update(rest, at - 1, row, a, b);
    }
}

} // verus!
