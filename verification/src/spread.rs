use vstd::prelude::*;

use crate::field::{adjacent, lemma_bombs_among_same, lemma_set_at, offset, Cell, FieldState};

verus! {

/// The number of plain covered cells in `cells`.
pub open spec fn empty_count(cells: Seq<Cell>) -> nat
    decreases cells.len(),
{
    if cells.len() == 0 {
        0
    } else {
        empty_count(cells.drop_last()) + if cells.last() is Empty {
            1nat
        } else {
            0nat
        }
    }
}

impl FieldState {
    /// A path along which a click spreads: plain covered cells of the field, each
    /// a neighbour of the one before, and every cell but the last without bombs around.
    pub open spec fn is_reveal_path(self, path: Seq<(int, int)>) -> bool {
        &&& path.len() > 0
        &&& forall|k: int|
            0 <= k < path.len() ==> self.in_bounds((#[trigger] path[k]).0, path[k].1) && self.at(
                path[k].0,
                path[k].1,
            ) is Empty
        &&& forall|k: int|
            0 <= k < path.len() - 1 ==> adjacent(#[trigger] path[k], path[k + 1])
                && self.bomb_count(path[k].0, path[k].1) == 0
    }

    /// Clicking `from` uncovers `to`: a reveal path leads from one to the other.
    pub open spec fn reveals(self, from: (int, int), to: (int, int)) -> bool {
        exists|path: Seq<(int, int)>|
            self.is_reveal_path(path) && path[0] == from && path[path.len() - 1] == to
    }

    /// `post` is this field after the click at `(x, y)` spread: every cell that the
    /// click reveals is uncovered with its number of surrounding bombs, every other
    /// cell is unchanged.
    pub open spec fn revealed_from(self, x: int, y: int, post: FieldState) -> bool {
        &&& post.wf()
        &&& post.same_shape(self)
        &&& post.initialized == self.initialized
        &&& forall|a: int, b: int|
            self.in_bounds(a, b) ==> #[trigger] post.at(a, b) == if self.reveals((x, y), (a, b)) {
                Cell::Uncovered { num_bombs: self.bomb_count(a, b) as u8 }
            } else {
                self.at(a, b)
            }
    }

    /// Every plain covered cell of this state was plain and covered in `other`.
    pub open spec fn empties_within(self, other: FieldState) -> bool {
        forall|i: int|
            0 <= i < self.cells.len() ==> (#[trigger] self.cells[i] is Empty ==> other.cells[i] is Empty)
    }

    /// `post` differs from this state only in cells uncovered with their bomb count.
    pub open spec fn only_uncovers(self, post: FieldState) -> bool {
        forall|a: int, b: int|
            self.in_bounds(a, b) ==> #[trigger] post.at(a, b) == self.at(a, b) || (self.at(a, b) is Empty
                && post.at(a, b) == Cell::Uncovered { num_bombs: self.bomb_count(a, b) as u8 })
    }

    /// No cell that `post` newly uncovered without bombs around has a covered neighbour left.
    pub open spec fn uncovering_closed(self, post: FieldState) -> bool {
        forall|a: int, b: int, c: int, d: int|
            #![trigger post.at(a, b), post.at(c, d)]
            self.in_bounds(a, b) && self.in_bounds(c, d) && adjacent((a, b), (c, d)) && self.at(
                a,
                b,
            ) is Empty && post.at(a, b) is Uncovered && self.bomb_count(a, b) == 0 ==> !(post.at(
                c,
                d,
            ) is Empty)
    }

    /// Every cell that `post` newly uncovered is revealed by a click at `start`.
    pub open spec fn uncovering_reached(self, start: (int, int), post: FieldState) -> bool {
        forall|a: int, b: int|
            self.in_bounds(a, b) && self.at(a, b) is Empty && !(#[trigger] post.at(a, b) is Empty)
                ==> self.reveals(start, (a, b))
    }
}

impl FieldState {
    /// Where a click at `(x, y)`, which has no bombs around, stands after its first
    /// `done` neighbours were clicked in turn: `s` only uncovers, keeps every bomb,
    /// reaches only what `(x, y)` reveals, has `(x, y)` uncovered, is closed around every
    /// other cell it uncovered, and has the first `done` neighbours uncovered.
    pub open spec fn spread_progress(self, x: int, y: int, s: FieldState, done: int) -> bool {
        &&& self.wf()
        &&& self.in_bounds(x, y)
        &&& self.at(x, y) is Empty
        &&& self.bomb_count(x, y) == 0
        &&& s.wf()
        &&& s.same_shape(self)
        &&& s.initialized == self.initialized
        &&& s.same_bombs(self)
        &&& self.only_uncovers(s)
        &&& self.uncovering_reached((x, y), s)
        &&& s.at(x, y) == Cell::Uncovered { num_bombs: 0 }
        &&& forall|a: int, b: int, c: int, d: int|
            #![trigger s.at(a, b), s.at(c, d)]
            self.in_bounds(a, b) && self.in_bounds(c, d) && adjacent((a, b), (c, d)) && (a, b) != (
                x,
                y,
            ) && self.at(a, b) is Empty && s.at(a, b) is Uncovered && self.bomb_count(a, b) == 0
                ==> !(s.at(c, d) is Empty)
        &&& forall|k: int|
            0 <= k < done && self.in_bounds(x + (#[trigger] offset(k)).0, y + offset(k).1)
                ==> !(s.at(x + offset(k).0, y + offset(k).1) is Empty)
    }
}

/// Which of the eight directions leads from `p` to its neighbour `q`.
pub open spec fn direction(p: (int, int), q: (int, int)) -> int {
    let dx = q.0 - p.0;
    let dy = q.1 - p.1;
    if dx == -1 {
        if dy == -1 {
            0
        } else if dy == 0 {
            1
        } else {
            2
        }
    } else if dx == 0 {
        if dy == -1 {
            3
        } else {
            4
        }
    } else {
        if dy == -1 {
            5
        } else if dy == 0 {
            6
        } else {
            7
        }
    }
}

proof fn lemma_direction(p: (int, int), q: (int, int))
    requires
        adjacent(p, q),
    ensures
        0 <= direction(p, q) < 8,
        q == (p.0 + offset(direction(p, q)).0, p.1 + offset(direction(p, q)).1),
{
}

/// Uncovering a cell without bombs around starts its spread.
pub proof fn lemma_spread_start(st: FieldState, x: int, y: int)
    requires
        st.wf(),
        st.in_bounds(x, y),
        (st.at(x, y) is Empty),
        st.bomb_count(x, y) == 0,
    ensures
        st.spread_progress(x, y, st.set_at(x, y, Cell::Uncovered { num_bombs: 0 }), 0),
{
    let s = st.set_at(x, y, Cell::Uncovered { num_bombs: 0 });
    lemma_set_at(st, x, y, Cell::Uncovered { num_bombs: 0 });
    assert(st.is_reveal_path(seq![(x, y)]));
    assert(st.reveals((x, y), (x, y)));
    assert forall|a: int, b: int| #[trigger] s.bomb_at(a, b) == st.bomb_at(a, b) by {}
}

/// Clicking the next neighbour in turn keeps the spread going.
pub proof fn lemma_spread_step(st: FieldState, x: int, y: int, s: FieldState, next: FieldState, k: int)
    requires
        st.spread_progress(x, y, s, k),
        0 <= k < 8,
        ({
            let nb = (x + offset(k).0, y + offset(k).1);
            if st.in_bounds(nb.0, nb.1) && s.at(nb.0, nb.1) is Empty {
                s.revealed_from(nb.0, nb.1, next)
            } else {
                next == s
            }
        }),
    ensures
        st.spread_progress(x, y, next, k + 1),
{
    let nb = (x + offset(k).0, y + offset(k).1);
    if st.in_bounds(nb.0, nb.1) && s.at(nb.0, nb.1) is Empty {
        lemma_revealed_from_props(s, nb.0, nb.1, next);
        assert forall|a: int, b: int| #[trigger] next.bomb_at(a, b) == st.bomb_at(a, b) by {
            assert(next.bomb_at(a, b) == s.bomb_at(a, b));
            assert(s.bomb_at(a, b) == st.bomb_at(a, b));
        }
        assert forall|a: int, b: int| st.in_bounds(a, b) implies #[trigger] next.at(a, b) == st.at(
            a,
            b,
        ) || (st.at(a, b) is Empty && next.at(a, b) == Cell::Uncovered {
            num_bombs: st.bomb_count(a, b) as u8,
        }) by {
            assert(s.at(a, b) == st.at(a, b) || (st.at(a, b) is Empty && s.at(a, b)
                == Cell::Uncovered { num_bombs: st.bomb_count(a, b) as u8 }));
            assert(next.at(a, b) == s.at(a, b) || (s.at(a, b) is Empty && next.at(a, b)
                == Cell::Uncovered { num_bombs: s.bomb_count(a, b) as u8 }));
            lemma_bombs_among_same(s, st, a, b, 8);
        }
        assert forall|a: int, b: int|
            st.in_bounds(a, b) && st.at(a, b) is Empty && !(#[trigger] next.at(
                a,
                b,
            ) is Empty) implies st.reveals((x, y), (a, b)) by {
            if s.at(a, b) is Empty {
                assert(s.reveals(nb, (a, b)));
                assert forall|c: int, d: int|
                    st.in_bounds(c, d) && #[trigger] s.at(c, d) is Empty implies st.at(
                    c,
                    d,
                ) is Empty by {
                    assert(s.at(c, d) == st.at(c, d) || s.at(c, d) is Uncovered);
                }
                lemma_reveals_extend(st, s, (x, y), nb, (a, b));
            } else {
                assert(s.at(a, b) == next.at(a, b) || s.at(a, b) is Empty);
            }
        }
        assert(next.at(x, y) == s.at(x, y) || s.at(x, y) is Empty);
        assert forall|a: int, b: int, c: int, d: int|
            #![trigger next.at(a, b), next.at(c, d)]
            st.in_bounds(a, b) && st.in_bounds(c, d) && adjacent((a, b), (c, d)) && (a, b) != (
                x,
                y,
            ) && st.at(a, b) is Empty && next.at(a, b) is Uncovered && st.bomb_count(a, b) == 0
                implies !(next.at(c, d) is Empty) by {
            lemma_bombs_among_same(s, st, a, b, 8);
            assert(next.at(a, b) == s.at(a, b) || (s.at(a, b) is Empty && next.at(a, b)
                is Uncovered));
            if s.at(a, b) is Empty {
                assert(!(next.at(c, d) is Empty));
            } else {
                assert(s.at(a, b) is Uncovered);
                assert(!(s.at(c, d) is Empty));
                assert(next.at(c, d) == s.at(c, d) || s.at(c, d) is Empty);
            }
        }
        assert forall|j: int|
            0 <= j < k + 1 && st.in_bounds(x + (#[trigger] offset(j)).0, y + offset(j).1) implies !(
            next.at(x + offset(j).0, y + offset(j).1) is Empty) by {
            let q = (x + offset(j).0, y + offset(j).1);
            if j < k {
                assert(!(s.at(q.0, q.1) is Empty));
                assert(next.at(q.0, q.1) == s.at(q.0, q.1) || s.at(q.0, q.1) is Empty);
            }
        }
    } else {
        assert forall|j: int|
            0 <= j < k + 1 && st.in_bounds(x + (#[trigger] offset(j)).0, y + offset(j).1) implies !(
            next.at(x + offset(j).0, y + offset(j).1) is Empty) by {
            if j < k {
            } else {
                assert(!(s.at(nb.0, nb.1) is Empty));
            }
        }
    }
}

/// Once every neighbour was clicked, the spread is exactly what the click reveals.
pub proof fn lemma_spread_done(st: FieldState, x: int, y: int, s: FieldState)
    requires
        st.spread_progress(x, y, s, 8),
    ensures
        st.revealed_from(x, y, s),
{
    assert forall|a: int, b: int, c: int, d: int|
        #![trigger s.at(a, b), s.at(c, d)]
        st.in_bounds(a, b) && st.in_bounds(c, d) && adjacent((a, b), (c, d)) && st.at(
            a,
            b,
        ) is Empty && s.at(a, b) is Uncovered && st.bomb_count(a, b) == 0 implies !(s.at(
        c,
        d,
    ) is Empty) by {
        if (a, b) == (x, y) {
            lemma_direction((a, b), (c, d));
            let k = direction((a, b), (c, d));
            assert(st.in_bounds(x + offset(k).0, y + offset(k).1));
        }
    }
    lemma_revealed_from_parts(st, x, y, s);
}

/// A click at a cell with bombs around uncovers that cell alone.
pub proof fn lemma_reveal_single(st: FieldState, x: int, y: int, n: u8)
    requires
        st.wf(),
        st.in_bounds(x, y),
        (st.at(x, y) is Empty),
        st.bomb_count(x, y) == n,
        n != 0,
    ensures
        st.revealed_from(x, y, st.set_at(x, y, Cell::Uncovered { num_bombs: n })),
{
    let s = st.set_at(x, y, Cell::Uncovered { num_bombs: n });
    lemma_set_at(st, x, y, Cell::Uncovered { num_bombs: n });
    assert(st.is_reveal_path(seq![(x, y)]));
    assert(st.reveals((x, y), (x, y)));
    assert forall|a: int, b: int|
        st.in_bounds(a, b) && st.at(a, b) is Empty && !(#[trigger] s.at(
            a,
            b,
        ) is Empty) implies st.reveals((x, y), (a, b)) by {}
    lemma_revealed_from_parts(st, x, y, s);
}

/// Fewer plain covered cells when some were covered or uncovered and none appeared.
pub proof fn lemma_empty_count_decreases(s1: Seq<Cell>, s2: Seq<Cell>, j: int)
    requires
        s1.len() == s2.len(),
        forall|i: int| 0 <= i < s2.len() ==> (#[trigger] s2[i] is Empty ==> s1[i] is Empty),
        0 <= j < s1.len(),
        (s1[j] is Empty),
        !(s2[j] is Empty),
    ensures
        empty_count(s2) < empty_count(s1),
    decreases s1.len(),
{
    let n = s1.len() - 1;
    if j == n {
        lemma_empty_count_le(s1.drop_last(), s2.drop_last());
    } else {
        assert(s1.drop_last()[j] == s1[j]);
        assert(s2.drop_last()[j] == s2[j]);
        assert forall|i: int|
            0 <= i < s2.drop_last().len() && #[trigger] s2.drop_last()[i] is Empty implies s1.drop_last()[i] is Empty by {
            assert(s2.drop_last()[i] == s2[i]);
        }
        lemma_empty_count_decreases(s1.drop_last(), s2.drop_last(), j);
    }
}

/// No more plain covered cells when none appeared.
pub proof fn lemma_empty_count_le(s1: Seq<Cell>, s2: Seq<Cell>)
    requires
        s1.len() == s2.len(),
        forall|i: int| 0 <= i < s2.len() ==> (#[trigger] s2[i] is Empty ==> s1[i] is Empty),
    ensures
        empty_count(s2) <= empty_count(s1),
    decreases s1.len(),
{
    if s1.len() > 0 {
        assert forall|i: int|
            0 <= i < s2.drop_last().len() && #[trigger] s2.drop_last()[i] is Empty implies s1.drop_last()[i] is Empty by {
            assert(s2.drop_last()[i] == s2[i]);
        }
        lemma_empty_count_le(s1.drop_last(), s2.drop_last());
        assert(s2[s2.len() - 1] is Empty ==> s1[s1.len() - 1] is Empty);
    }
}

/// Along a reveal path, cells stay uncovered once the click has passed: if `post`
/// only uncovers, is closed, and uncovers the start, it uncovers the whole path.
proof fn lemma_path_uncovered(st: FieldState, post: FieldState, path: Seq<(int, int)>, k: int)
    requires
        st.wf(),
        post.same_shape(st),
        st.only_uncovers(post),
        st.uncovering_closed(post),
        st.is_reveal_path(path),
        !(post.at(path[0].0, path[0].1) is Empty),
        0 <= k < path.len(),
    ensures
        post.at(path[k].0, path[k].1) == (Cell::Uncovered {
            num_bombs: st.bomb_count(path[k].0, path[k].1) as u8,
        }),
    decreases k,
{
    assert(st.in_bounds(path[k].0, path[k].1) && st.at(path[k].0, path[k].1) is Empty);
    if k > 0 {
        lemma_path_uncovered(st, post, path, k - 1);
        let (a, b) = path[k - 1];
        let (c, d) = path[k];
        assert(adjacent(path[k - 1], path[k]) && st.bomb_count(a, b) == 0);
        assert(st.in_bounds(a, b) && st.at(a, b) is Empty);
        assert(!(post.at(c, d) is Empty));
        assert(post.at(c, d) == st.at(c, d) || post.at(c, d) == Cell::Uncovered {
            num_bombs: st.bomb_count(c, d) as u8,
        });
    } else {
        assert(post.at(path[0].0, path[0].1) == st.at(path[0].0, path[0].1) || post.at(
            path[0].0,
            path[0].1,
        ) == Cell::Uncovered { num_bombs: st.bomb_count(path[0].0, path[0].1) as u8 });
    }
}

/// A state that only uncovers, is closed, reaches only what the start reveals and
/// uncovers the start is exactly the click's spread.
pub proof fn lemma_revealed_from_parts(st: FieldState, x: int, y: int, post: FieldState)
    requires
        st.wf(),
        post.wf(),
        post.same_shape(st),
        post.initialized == st.initialized,
        st.only_uncovers(post),
        st.uncovering_closed(post),
        st.uncovering_reached((x, y), post),
        st.in_bounds(x, y),
        (st.at(x, y) is Empty),
        !(post.at(x, y) is Empty),
    ensures
        st.revealed_from(x, y, post),
{
    assert forall|a: int, b: int| st.in_bounds(a, b) implies #[trigger] post.at(a, b) == if st.reveals(
        (x, y),
        (a, b),
    ) {
        Cell::Uncovered { num_bombs: st.bomb_count(a, b) as u8 }
    } else {
        st.at(a, b)
    } by {
        if st.reveals((x, y), (a, b)) {
            let path = choose|path: Seq<(int, int)>|
                st.is_reveal_path(path) && path[0] == (x, y) && path[path.len() - 1] == (a, b);
            lemma_path_uncovered(st, post, path, path.len() - 1);
        } else {
            assert(post.at(a, b) == st.at(a, b) || (st.at(a, b) is Empty && post.at(a, b)
                == Cell::Uncovered { num_bombs: st.bomb_count(a, b) as u8 }));
        }
    }
}

/// The spread of a click at a plain covered cell only uncovers, is closed, reaches only
/// what the start reveals, uncovers the start, and leaves every bomb where it was.
pub proof fn lemma_revealed_from_props(pre: FieldState, x: int, y: int, post: FieldState)
    requires
        pre.wf(),
        pre.revealed_from(x, y, post),
        pre.in_bounds(x, y),
        (pre.at(x, y) is Empty),
    ensures
        pre.only_uncovers(post),
        pre.uncovering_closed(post),
        pre.uncovering_reached((x, y), post),
        pre.same_bombs(post),
        (post.at(x, y) is Uncovered),
{
    let single = seq![(x, y)];
    assert(pre.is_reveal_path(single));
    assert(pre.reveals((x, y), (x, y)));
    assert forall|a: int, b: int| pre.in_bounds(a, b) implies #[trigger] post.at(a, b) == pre.at(
        a,
        b,
    ) || (pre.at(a, b) is Empty && post.at(a, b) == Cell::Uncovered {
        num_bombs: pre.bomb_count(a, b) as u8,
    }) by {
        if pre.reveals((x, y), (a, b)) {
            let path = choose|path: Seq<(int, int)>|
                pre.is_reveal_path(path) && path[0] == (x, y) && path[path.len() - 1] == (a, b);
            assert(path[path.len() - 1] == (a, b));
        }
    }
    assert forall|a: int, b: int, c: int, d: int|
        #![trigger post.at(a, b), post.at(c, d)]
        pre.in_bounds(a, b) && pre.in_bounds(c, d) && adjacent((a, b), (c, d)) && pre.at(
            a,
            b,
        ) is Empty && post.at(a, b) is Uncovered && pre.bomb_count(a, b) == 0 implies !(post.at(
        c,
        d,
    ) is Empty) by {
        if pre.at(c, d) is Empty {
            if !pre.reveals((x, y), (a, b)) {
                assert(post.at(a, b) == pre.at(a, b));
            }
            let path = choose|path: Seq<(int, int)>|
                pre.is_reveal_path(path) && path[0] == (x, y) && path[path.len() - 1] == (a, b);
            let longer = path.push((c, d));
            assert(longer[path.len() - 1] == (a, b));
            assert(pre.is_reveal_path(longer)) by {
                assert forall|k: int| 0 <= k < longer.len() implies pre.in_bounds(
                    (#[trigger] longer[k]).0,
                    longer[k].1,
                ) && pre.at(longer[k].0, longer[k].1) is Empty by {
                    if k < path.len() {
                        assert(longer[k] == path[k]);
                    }
                }
                assert forall|k: int| 0 <= k < longer.len() - 1 implies adjacent(
                    #[trigger] longer[k],
                    longer[k + 1],
                ) && pre.bomb_count(longer[k].0, longer[k].1) == 0 by {
                    assert(longer[k] == path[k]);
                    if k < path.len() - 1 {
                        assert(longer[k + 1] == path[k + 1]);
                    }
                }
            }
            assert(longer[0] == (x, y));
            assert(pre.reveals((x, y), (c, d)));
        } else {
            if pre.reveals((x, y), (c, d)) {
                let path = choose|path: Seq<(int, int)>|
                    pre.is_reveal_path(path) && path[0] == (x, y) && path[path.len() - 1] == (c, d);
                assert(path[path.len() - 1] == (c, d));
            }
        }
    }
    assert forall|a: int, b: int| #[trigger] pre.bomb_at(a, b) == post.bomb_at(a, b) by {
        if pre.in_bounds(a, b) {
            if pre.reveals((x, y), (a, b)) {
                let path = choose|path: Seq<(int, int)>|
                    pre.is_reveal_path(path) && path[0] == (x, y) && path[path.len() - 1] == (a, b);
                assert(path[path.len() - 1] == (a, b));
            }
            assert(post.at(a, b) == pre.at(a, b) || (pre.at(a, b) is Empty && post.at(a, b)
                is Uncovered));
        }
    }
}

/// A cell revealed from a neighbour `nb` of `start` in a later state `s` is revealed
/// from `start` in the earlier state `st`, when `start` has no bombs around.
pub proof fn lemma_reveals_extend(
    st: FieldState,
    s: FieldState,
    start: (int, int),
    nb: (int, int),
    p: (int, int),
)
    requires
        st.wf(),
        s.same_shape(st),
        s.same_bombs(st),
        (forall|a: int, b: int| st.in_bounds(a, b) && #[trigger] s.at(a, b) is Empty ==> st.at(a, b) is Empty),
        s.reveals(nb, p),
        st.in_bounds(start.0, start.1),
        (st.at(start.0, start.1) is Empty),
        st.bomb_count(start.0, start.1) == 0,
        adjacent(start, nb),
    ensures
        st.reveals(start, p),
{
    let path = choose|path: Seq<(int, int)>|
        s.is_reveal_path(path) && path[0] == nb && path[path.len() - 1] == p;
    let longer = seq![start] + path;
    assert forall|k: int| 0 <= k < longer.len() implies st.in_bounds(
        (#[trigger] longer[k]).0,
        longer[k].1,
    ) && st.at(longer[k].0, longer[k].1) is Empty by {
        if k > 0 {
            assert(longer[k] == path[k - 1]);
            assert(s.in_bounds(path[k - 1].0, path[k - 1].1));
        }
    }
    assert forall|k: int| 0 <= k < longer.len() - 1 implies adjacent(
        #[trigger] longer[k],
        longer[k + 1],
    ) && st.bomb_count(longer[k].0, longer[k].1) == 0 by {
        assert(longer[k + 1] == path[k]);
        if k > 0 {
            assert(longer[k] == path[k - 1]);
            lemma_bombs_among_same(s, st, path[k - 1].0, path[k - 1].1, 8);
        }
    }
    assert(st.is_reveal_path(longer));
    assert(longer[longer.len() - 1] == path[path.len() - 1]);
}

} // verus!
