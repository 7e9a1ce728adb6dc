//! Facts about the cascade: which tiles it reaches, and why every traversal
//! that works off a collection of waiting tiles, in whatever order, ends
//! with exactly those handled.

use vstd::prelude::*;
use crate::grid::{lists, Grid};

verus! {

/// Whether the set `done` of indices holds `idx`.
pub open spec fn has(done: Set<usize>, idx: int) -> bool {
    0 <= idx <= usize::MAX && done.contains(idx as usize)
}

/// The number of indices below `n` that `done` does not hold.
pub open spec fn unhandled(done: Set<usize>, n: nat) -> nat
    decreases n,
{
    if n == 0 {
        0
    } else {
        unhandled(done, (n - 1) as nat) + (if has(done, n - 1) {
            0nat
        } else {
            1nat
        })
    }
}

/// A new index below `n` in `done` leaves one index fewer unhandled.
pub proof fn lemma_unhandled_insert(done: Set<usize>, idx: usize, n: nat)
    requires
        !done.contains(idx),
    ensures
        unhandled(done.insert(idx), n) + (if idx < n {
            1nat
        } else {
            0nat
        }) == unhandled(done, n),
    decreases n,
{
    if n > 0 {
        lemma_unhandled_insert(done, idx, (n - 1) as nat);
    }
}

/// Whether `after` lists what is left of `pending` when one occurrence of
/// `at` is taken out and the indices in `added` are put in, in any order.
pub open spec fn replaces(
    pending: Seq<usize>,
    at: usize,
    added: Seq<usize>,
    after: Seq<usize>,
) -> bool {
    &&& forall|idx: int| lists(pending, idx) ==> idx == at || lists(after, idx)
    &&& forall|idx: int| lists(added, idx) ==> lists(after, idx)
    &&& forall|idx: int| lists(after, idx) ==> lists(pending, idx) || lists(added, idx)
}

/// Taking the last index off a list and appending others replaces it by
/// them.
pub proof fn lemma_replaces_last(pending: Seq<usize>, added: Seq<usize>)
    requires
        pending.len() > 0,
    ensures
        lists(pending, pending.last() as int),
        replaces(pending, pending.last(), added, pending.drop_last() + added),
{
    let rest = pending.drop_last();
    let after = rest + added;
    assert forall|idx: int| lists(pending, idx) implies idx == pending.last() || lists(
        after,
        idx,
    ) by {
        let k = choose|k: int| 0 <= k < pending.len() && #[trigger] pending[k] == idx;
        if k < rest.len() {
            assert(after[k] == idx);
        }
    }
    assert forall|idx: int| lists(added, idx) implies lists(after, idx) by {
        let k = choose|k: int| 0 <= k < added.len() && #[trigger] added[k] == idx;
        assert(after[rest.len() + k] == idx);
    }
    assert forall|idx: int| lists(after, idx) implies lists(pending, idx) || lists(
        added,
        idx,
    ) by {
        let k = choose|k: int| 0 <= k < after.len() && #[trigger] after[k] == idx;
        if k < rest.len() {
            assert(pending[k] == idx);
        } else {
            assert(added[k - rest.len()] == idx);
        }
    }
}

impl Grid {
    /// The state of a traversal that spreads a reveal from `start` over this
    /// grid: `done` holds the indices handled so far, `pending` those that
    /// wait, and `now` is the grid as the traversal has left it.
    ///
    /// Nothing is handled or waits but what the cascade reaches; the start
    /// is handled or waits; around a handled tile with label 0 every tile is
    /// handled or waits; and the handled tiles, and no others, are revealed
    /// as the cascade asks.
    pub open spec fn cascading(
        self,
        start: int,
        done: Set<usize>,
        pending: Seq<usize>,
        now: Grid,
    ) -> bool {
        &&& self.shaped()
        &&& 0 <= start < self.tiles.len()
        &&& now.width == self.width
        &&& now.height == self.height
        &&& now.tiles.len() == self.tiles.len()
        &&& forall|idx: int| has(done, idx) ==> self.cascade_reaches(start, idx)
        &&& forall|idx: int| lists(pending, idx) ==> self.cascade_reaches(start, idx)
        &&& (has(done, start) || lists(pending, start))
        &&& forall|via: int, idx: int|
            has(done, via) && self.empty_at(via) && #[trigger] self.adjacent(via, idx) ==> has(
                done,
                idx,
            ) || lists(pending, idx)
        &&& forall|idx: int|
            0 <= idx < self.tiles.len() ==> #[trigger] now.tiles[idx] == (if has(done, idx)
                && self.cascade_opens(idx) {
                self.tiles[idx].shown()
            } else {
                self.tiles[idx]
            })
    }

    /// A tile with label 0 that the cascade reaches is linked to the start
    /// by a walk over such tiles.
    pub proof fn lemma_reached_empty_linked(self, start: int, idx: int)
        requires
            self.cascade_reaches(start, idx),
            self.empty_at(idx),
        ensures
            self.empty_linked(start, idx),
    {
        if idx == start {
            let path = seq![start];
            assert(self.empty_walk(path) && path[0] == start && path.last() == idx);
        } else {
            let via = choose|via: int|
                #![auto]
                self.empty_linked(start, via) && self.adjacent(via, idx);
            let path = choose|path: Seq<int>|
                #![auto]
                self.empty_walk(path) && path[0] == start && path.last() == via;
            let longer = path.push(idx);
            assert forall|k: int| 0 <= k < longer.len() implies self.empty_at(
                #[trigger] longer[k],
            ) by {
                if k < path.len() {
                    assert(longer[k] == path[k]);
                }
            }
            assert forall|k: int| 0 < k < longer.len() implies self.adjacent(
                longer[k - 1],
                #[trigger] longer[k],
            ) by {
                if k < path.len() {
                    assert(longer[k] == path[k]);
                }
            }
            assert(self.empty_walk(longer) && longer[0] == start && longer.last() == idx);
        }
    }

    /// The cascade spreads from a tile with label 0 that it reaches to every
    /// neighbour of that tile.
    pub proof fn lemma_cascade_spreads(self, start: int, via: int, idx: int)
        requires
            self.cascade_reaches(start, via),
            self.empty_at(via),
            self.adjacent(via, idx),
        ensures
            self.cascade_reaches(start, idx),
    {
        self.lemma_reached_empty_linked(start, via);
    }

    /// A set that holds the first tile of a walk over tiles with label 0,
    /// and with each such tile its neighbours, holds every tile of the walk.
    pub proof fn lemma_walk_inside(self, path: Seq<int>, inside: Set<int>, upto: int)
        requires
            self.empty_walk(path),
            inside.contains(path[0]),
            forall|via: int, idx: int|
                inside.contains(via) && self.empty_at(via) && #[trigger] self.adjacent(via, idx)
                    ==> inside.contains(idx),
            0 <= upto < path.len(),
        ensures
            inside.contains(path[upto]),
        decreases upto,
    {
        if upto > 0 {
            self.lemma_walk_inside(path, inside, upto - 1);
            assert(self.adjacent(path[upto - 1], path[upto]));
        }
    }

    /// What the cascade reaches is the least set that holds the start and,
    /// with each tile of label 0, its neighbours: every such set holds all
    /// that the cascade reaches.
    pub proof fn lemma_cascade_least(self, start: int, inside: Set<int>)
        requires
            inside.contains(start),
            forall|via: int, idx: int|
                inside.contains(via) && self.empty_at(via) && #[trigger] self.adjacent(via, idx)
                    ==> inside.contains(idx),
        ensures
            forall|idx: int| self.cascade_reaches(start, idx) ==> inside.contains(idx),
    {
        assert forall|idx: int| self.cascade_reaches(start, idx) implies inside.contains(idx) by {
            if idx != start {
                let via = choose|via: int|
                    #![auto]
                    self.empty_linked(start, via) && self.adjacent(via, idx);
                let path = choose|path: Seq<int>|
                    #![auto]
                    self.empty_walk(path) && path[0] == start && path.last() == via;
                self.lemma_walk_inside(path, inside, path.len() - 1);
            }
        }
    }

    /// A traversal may begin with nothing handled and the start waiting.
    pub proof fn lemma_cascading_begin(self, start: int)
        requires
            self.shaped(),
            0 <= start < self.tiles.len(),
        ensures
            self.cascading(start, Set::empty(), seq![start as usize], self),
    {
        let pending = seq![start as usize];
        assert(pending[0] == start);
    }

    /// A waiting tile that has been handled already may be taken out of the
    /// waiting ones.
    pub proof fn lemma_cascading_skip(
        self,
        start: int,
        done: Set<usize>,
        pending: Seq<usize>,
        now: Grid,
        at: usize,
        after: Seq<usize>,
    )
        requires
            self.cascading(start, done, pending, now),
            lists(pending, at as int),
            done.contains(at),
            replaces(pending, at, Seq::empty(), after),
        ensures
            self.cascading(start, done, after, now),
    {
        assert forall|idx: int| !lists(Seq::<usize>::empty(), idx) by {}
    }

    /// Handling a waiting tile with label 0: it is revealed, and the tiles
    /// around it wait in its place.
    pub proof fn lemma_cascading_spread(
        self,
        start: int,
        done: Set<usize>,
        pending: Seq<usize>,
        now: Grid,
        at: usize,
        after: Seq<usize>,
    )
        requires
            self.cascading(start, done, pending, now),
            lists(pending, at as int),
            !done.contains(at),
            self.empty_at(at as int),
            replaces(
                pending,
                at,
                self.neighbors(self.row_of(at as int), self.col_of(at as int)),
                after,
            ),
        ensures
            self.cascading(
                start,
                done.insert(at),
                after,
                now.put(at as int, now.tiles[at as int].shown()),
            ),
    {
        let around = self.neighbors(self.row_of(at as int), self.col_of(at as int));
        let done2 = done.insert(at);
        let now2 = now.put(at as int, now.tiles[at as int].shown());
        self.lemma_neighbors(self.row_of(at as int), self.col_of(at as int));
        assert forall|idx: int| lists(around, idx) implies self.cascade_reaches(start, idx) by {
            let k = choose|k: int| 0 <= k < around.len() && #[trigger] around[k] == idx;
            assert(self.adjacent(at as int, around[k] as int));
            self.lemma_cascade_spreads(start, at as int, idx);
        }
        assert forall|via: int, idx: int|
            has(done2, via) && self.empty_at(via) && #[trigger] self.adjacent(
                via,
                idx,
            ) implies has(done2, idx) || lists(after, idx) by {
            if via == at {
                assert(around.contains(idx as usize));
            } else {
                assert(has(done, via));
            }
        }
        assert forall|idx: int| 0 <= idx < self.tiles.len() implies #[trigger] now2.tiles[idx] == (
        if has(done2, idx) && self.cascade_opens(idx) {
            self.tiles[idx].shown()
        } else {
            self.tiles[idx]
        }) by {
            assert(now.tiles[idx] == (if has(done, idx) && self.cascade_opens(idx) {
                self.tiles[idx].shown()
            } else {
                self.tiles[idx]
            }));
        }
        assert forall|idx: int| has(done2, idx) implies self.cascade_reaches(start, idx) by {
            if idx != at {
                assert(has(done, idx));
            }
        }
    }

    /// Handling a waiting tile with another label: it is revealed unless it
    /// is flagged, and nothing waits in its place.
    pub proof fn lemma_cascading_stop(
        self,
        start: int,
        done: Set<usize>,
        pending: Seq<usize>,
        now: Grid,
        at: usize,
        after: Seq<usize>,
    )
        requires
            self.cascading(start, done, pending, now),
            lists(pending, at as int),
            !done.contains(at),
            !self.empty_at(at as int),
            replaces(pending, at, Seq::empty(), after),
        ensures
            self.cascading(
                start,
                done.insert(at),
                after,
                if self.tiles[at as int].flagged {
                    now
                } else {
                    now.put(at as int, now.tiles[at as int].shown())
                },
            ),
    {
        let done2 = done.insert(at);
        let now2 = if self.tiles[at as int].flagged {
            now
        } else {
            now.put(at as int, now.tiles[at as int].shown())
        };
        assert forall|idx: int| !lists(Seq::<usize>::empty(), idx) by {}
        assert forall|idx: int| has(done2, idx) implies self.cascade_reaches(start, idx) by {
            if idx != at {
                assert(has(done, idx));
            }
        }
        assert forall|via: int, idx: int|
            has(done2, via) && self.empty_at(via) && #[trigger] self.adjacent(
                via,
                idx,
            ) implies has(done2, idx) || lists(after, idx) by {
            assert(has(done, via));
        }
        assert forall|idx: int| 0 <= idx < self.tiles.len() implies #[trigger] now2.tiles[idx] == (
        if has(done2, idx) && self.cascade_opens(idx) {
            self.tiles[idx].shown()
        } else {
            self.tiles[idx]
        }) by {
            assert(now.tiles[idx] == (if has(done, idx) && self.cascade_opens(idx) {
                self.tiles[idx].shown()
            } else {
                self.tiles[idx]
            }));
        }
    }

    /// When nothing waits any more, the traversal has handled exactly the
    /// tiles that the cascade reaches, and has left the grid as the cascade
    /// asks.
    pub proof fn lemma_cascading_end(self, start: int, done: Set<usize>, now: Grid)
        requires
            self.cascading(start, done, Seq::empty(), now),
        ensures
            forall|idx: int| has(done, idx) <==> self.cascade_reaches(start, idx),
            now == self.cascade(start),
    {
        let inside = Set::new(|idx: int| has(done, idx));
        assert forall|idx: int| !lists(Seq::<usize>::empty(), idx) by {}
        self.lemma_cascade_least(start, inside);
        assert forall|idx: int| self.cascade_reaches(start, idx) implies has(done, idx) by {
            assert(inside.contains(idx));
        }
        assert(now.tiles =~= self.cascade(start).tiles);
    }
}

} // verus!
