use vstd::prelude::*;

use crate::field::{is_near, lemma_index_in_range, lemma_set_at, offset, Cell, FieldState};

verus! {

/// The candidates left after the draws `draws`: each draw takes, by its index, one of the
/// candidates still left, in their order.
pub open spec fn left_after(cands: Seq<(usize, usize)>, draws: Seq<usize>) -> Seq<(usize, usize)>
    decreases draws.len(),
{
    if draws.len() == 0 {
        cands
    } else {
        left_after(cands, draws.drop_last()).remove(draws.last() as int)
    }
}

/// The candidates taken by the draws `draws`, in the order they were drawn.
pub open spec fn drawn(cands: Seq<(usize, usize)>, draws: Seq<usize>) -> Seq<(usize, usize)>
    decreases draws.len(),
{
    if draws.len() == 0 {
        Seq::empty()
    } else {
        drawn(cands, draws.drop_last()).push(
            left_after(cands, draws.drop_last())[draws.last() as int],
        )
    }
}

/// Every draw picks one of the candidates still left: the `k`-th draw is below `n - k`.
pub open spec fn valid_draws(n: nat, draws: Seq<usize>) -> bool {
    &&& draws.len() <= n
    &&& forall|k: int| 0 <= k < draws.len() ==> #[trigger] draws[k] < n - k
}

impl FieldState {
    /// Whether `(x, y)` may receive a bomb when the first click is at `(ix, iy)`:
    /// it lies in the field, is a plain covered cell, and is neither the clicked
    /// cell nor one of its neighbours.
    pub open spec fn is_candidate(self, x: int, y: int, ix: int, iy: int) -> bool {
        &&& self.in_bounds(x, y)
        &&& self.at(x, y) is Empty
        &&& !is_near(x, y, ix, iy, 1)
    }

    /// The candidates among the first `n` cells of row `y`, left to right.
    pub open spec fn row_candidates(self, y: nat, n: nat, ix: int, iy: int) -> Seq<(usize, usize)>
        decreases n,
    {
        if n == 0 {
            Seq::empty()
        } else {
            let x = (n - 1) as nat;
            self.row_candidates(y, x, ix, iy) + if self.is_candidate(x as int, y as int, ix, iy) {
                seq![(x as usize, y as usize)]
            } else {
                Seq::empty()
            }
        }
    }

    /// The candidates in the first `rows` rows, row by row.
    pub open spec fn candidates_upto(self, rows: nat, ix: int, iy: int) -> Seq<(usize, usize)>
        decreases rows,
    {
        if rows == 0 {
            Seq::empty()
        } else {
            let y = (rows - 1) as nat;
            self.candidates_upto(y, ix, iy) + self.row_candidates(y, self.width, ix, iy)
        }
    }

    /// Every cell that may receive a bomb when the first click is at `(ix, iy)`,
    /// in row-major order.
    pub open spec fn mine_candidates(self, ix: int, iy: int) -> Seq<(usize, usize)> {
        self.candidates_upto(self.height, ix, iy)
    }

    /// The field after walking through the proposed bomb positions `props`
    /// with `placed` bombs already placed: a proposal is taken while fewer than
    /// `num_mines` bombs are placed and it is a candidate; otherwise it is skipped.
    pub open spec fn with_proposals(
        self,
        ix: int,
        iy: int,
        placed: nat,
        props: Seq<(usize, usize)>,
    ) -> FieldState
        decreases props.len(),
    {
        if props.len() == 0 {
            self
        } else {
            let p = props[0];
            if placed < self.num_mines && self.is_candidate(p.0 as int, p.1 as int, ix, iy) {
                self.set_at(p.0 as int, p.1 as int, Cell::Bomb).with_proposals(
                    ix,
                    iy,
                    placed + 1,
                    props.drop_first(),
                )
            } else {
                self.with_proposals(ix, iy, placed, props.drop_first())
            }
        }
    }

    /// Whether a click at `(ix, iy)` finds room for every bomb: the field already has its
    /// bombs, or there are at least as many candidates as bombs to lay.
    /// (Without room, laying the bombs would search for a free cell forever.)
    pub open spec fn room_for_mines(self, ix: int, iy: int) -> bool {
        self.initialized || self.num_mines <= self.mine_candidates(ix, iy).len()
    }

    /// `new` is this field after bombs were laid for a first click at `(ix, iy)`:
    /// as many distinct candidates as the mode asks for received a bomb, and nothing
    /// else changed.
    pub open spec fn mined_into(self, ix: int, iy: int, new: FieldState) -> bool {
        &&& new.wf()
        &&& new.same_shape(self)
        &&& new.initialized
        &&& exists|placed: Seq<(usize, usize)>|
            {
                &&& placed.no_duplicates()
                &&& placed.len() == self.num_mines
                &&& exists|draws: Seq<usize>|
                    valid_draws(self.mine_candidates(ix, iy).len(), draws) && placed == drawn(
                        self.mine_candidates(ix, iy),
                        draws,
                    )
                &&& forall|k: int|
                    0 <= k < placed.len() ==> self.mine_candidates(ix, iy).contains(
                        #[trigger] placed[k],
                    )
                &&& forall|a: int, b: int|
                    self.in_bounds(a, b) ==> #[trigger] new.at(a, b) == if placed.contains(
                        (a as usize, b as usize),
                    ) {
                        Cell::Bomb
                    } else {
                        self.at(a, b)
                    }
            }
    }
}

/// Drawing one more candidate: what is left loses the drawn one, which joins the drawn.
pub proof fn lemma_draw_step(cands: Seq<(usize, usize)>, draws: Seq<usize>, k: usize)
    ensures
        left_after(cands, draws.push(k)) == left_after(cands, draws).remove(k as int),
        drawn(cands, draws.push(k)) == drawn(cands, draws).push(left_after(cands, draws)[k as int]),
{
    assert(draws.push(k).drop_last() =~= draws);
}

/// The first drawn candidate is the one the first draw names.
pub proof fn lemma_drawn_first(cands: Seq<(usize, usize)>, draws: Seq<usize>)
    requires
        draws.len() > 0,
    ensures
        drawn(cands, draws).len() == draws.len(),
        drawn(cands, draws)[0] == cands[draws[0] as int],
    decreases draws.len(),
{
    let prev = draws.drop_last();
    if draws.len() > 1 {
        lemma_drawn_first(cands, prev);
        assert(prev[0] == draws[0]);
    } else {
        assert(prev.len() == 0);
        assert(drawn(cands, prev) == Seq::<(usize, usize)>::empty());
        assert(left_after(cands, prev) == cands);
        assert(draws.last() == draws[0]);
    }
    assert(drawn(cands, draws) == drawn(cands, prev).push(left_after(cands, prev)[draws.last() as int]));
}

/// The candidates of a row are exactly the candidate cells of that row, each once.
pub proof fn lemma_row_candidates(st: FieldState, y: nat, n: nat, ix: int, iy: int)
    requires
        st.wf(),
        n <= st.width,
        y < st.height,
    ensures
        st.row_candidates(y, n, ix, iy).no_duplicates(),
        forall|p: (usize, usize)|
            #[trigger] st.row_candidates(y, n, ix, iy).contains(p) <==> (p.1 == y && p.0 < n
                && st.is_candidate(p.0 as int, p.1 as int, ix, iy)),
    decreases n,
{
    if n > 0 {
        let x = (n - 1) as nat;
        lemma_row_candidates(st, y, x, ix, iy);
        let prev = st.row_candidates(y, x, ix, iy);
        let tail = if st.is_candidate(x as int, y as int, ix, iy) {
            seq![(x as usize, y as usize)]
        } else {
            Seq::<(usize, usize)>::empty()
        };
        assert(st.row_candidates(y, n, ix, iy) == prev + tail);
        assert forall|p: (usize, usize)| #[trigger]
            (prev + tail).contains(p) <==> (p.1 == y && p.0 < n && st.is_candidate(
                p.0 as int,
                p.1 as int,
                ix,
                iy,
            )) by {
            if (prev + tail).contains(p) {
                let k = choose|k: int| 0 <= k < (prev + tail).len() && (prev + tail)[k] == p;
                if k < prev.len() {
                    assert(prev.contains(p));
                } else {
                    assert(tail[k - prev.len()] == p);
                }
            }
            if p.1 == y && p.0 < n && st.is_candidate(p.0 as int, p.1 as int, ix, iy) {
                if p.0 < x {
                    assert(prev.contains(p));
                    let k = choose|k: int| 0 <= k < prev.len() && prev[k] == p;
                    assert((prev + tail)[k] == p);
                } else {
                    assert((prev + tail)[prev.len() as int] == p);
                }
            }
        }
        assert forall|i: int, j: int|
            0 <= i < (prev + tail).len() && 0 <= j < (prev + tail).len() && i != j implies (prev
            + tail)[i] != (prev + tail)[j] by {
            if i < prev.len() && j >= prev.len() {
                assert(prev.contains(prev[i]));
            } else if j < prev.len() && i >= prev.len() {
                assert(prev.contains(prev[j]));
            }
        }
    }
}

/// The candidates of the first rows are exactly the candidate cells of those rows, each once.
pub proof fn lemma_candidates_upto(st: FieldState, rows: nat, ix: int, iy: int)
    requires
        st.wf(),
        rows <= st.height,
    ensures
        st.candidates_upto(rows, ix, iy).no_duplicates(),
        forall|p: (usize, usize)|
            #[trigger] st.candidates_upto(rows, ix, iy).contains(p) <==> (p.1 < rows
                && st.is_candidate(p.0 as int, p.1 as int, ix, iy)),
    decreases rows,
{
    if rows > 0 {
        let y = (rows - 1) as nat;
        lemma_candidates_upto(st, y, ix, iy);
        lemma_row_candidates(st, y, st.width, ix, iy);
        let prev = st.candidates_upto(y, ix, iy);
        let row = st.row_candidates(y, st.width, ix, iy);
        assert(st.candidates_upto(rows, ix, iy) == prev + row);
        assert forall|p: (usize, usize)| #[trigger]
            (prev + row).contains(p) <==> (p.1 < rows && st.is_candidate(
                p.0 as int,
                p.1 as int,
                ix,
                iy,
            )) by {
            if (prev + row).contains(p) {
                let k = choose|k: int| 0 <= k < (prev + row).len() && (prev + row)[k] == p;
                if k < prev.len() {
                    assert(prev.contains(p));
                } else {
                    assert(row[k - prev.len()] == p);
                    assert(row.contains(p));
                }
            }
            if p.1 < rows && st.is_candidate(p.0 as int, p.1 as int, ix, iy) {
                if p.1 < y {
                    assert(prev.contains(p));
                    let k = choose|k: int| 0 <= k < prev.len() && prev[k] == p;
                    assert((prev + row)[k] == p);
                } else {
                    assert(row.contains(p));
                    let k = choose|k: int| 0 <= k < row.len() && row[k] == p;
                    assert((prev + row)[prev.len() + k] == p);
                }
            }
        }
        assert forall|i: int, j: int|
            0 <= i < (prev + row).len() && 0 <= j < (prev + row).len() && i != j implies (prev
            + row)[i] != (prev + row)[j] by {
            if i < prev.len() && j >= prev.len() {
                assert(prev.contains(prev[i]));
                assert(row.contains(row[j - prev.len()]));
            } else if j < prev.len() && i >= prev.len() {
                assert(prev.contains(prev[j]));
                assert(row.contains(row[i - prev.len()]));
            }
        }
    }
}

/// Walking through proposals keeps the field's shape.
pub proof fn lemma_with_proposals_shape(
    st: FieldState,
    ix: int,
    iy: int,
    placed: nat,
    props: Seq<(usize, usize)>,
)
    requires
        st.wf(),
    ensures
        st.with_proposals(ix, iy, placed, props).wf(),
        st.with_proposals(ix, iy, placed, props).same_shape(st),
        st.with_proposals(ix, iy, placed, props).initialized == st.initialized,
        st.with_proposals(ix, iy, placed, props).empties_within(st),
    decreases props.len(),
{
    if props.len() > 0 {
        let p = props[0];
        if placed < st.num_mines && st.is_candidate(p.0 as int, p.1 as int, ix, iy) {
            lemma_set_at(st, p.0 as int, p.1 as int, Cell::Bomb);
            lemma_index_in_range(p.0 as int, p.1 as int, st.width as int, st.height as int);
            lemma_with_proposals_shape(
                st.set_at(p.0 as int, p.1 as int, Cell::Bomb),
                ix,
                iy,
                placed + 1,
                props.drop_first(),
            );
        } else {
            lemma_with_proposals_shape(st, ix, iy, placed, props.drop_first());
        }
    }
}

/// Distinct candidate proposals, no more than the bombs still missing, are all taken.
pub proof fn lemma_proposals_all_placed(
    st: FieldState,
    ix: int,
    iy: int,
    placed: nat,
    props: Seq<(usize, usize)>,
)
    requires
        st.wf(),
        props.no_duplicates(),
        placed + props.len() <= st.num_mines,
        forall|k: int|
            0 <= k < props.len() ==> st.is_candidate(
                (#[trigger] props[k]).0 as int,
                props[k].1 as int,
                ix,
                iy,
            ),
    ensures
        forall|a: int, b: int|
            st.in_bounds(a, b) ==> #[trigger] st.with_proposals(ix, iy, placed, props).at(a, b)
                == if props.contains((a as usize, b as usize)) {
                Cell::Bomb
            } else {
                st.at(a, b)
            },
    decreases props.len(),
{
    if props.len() > 0 {
        let p = props[0];
        let st1 = st.set_at(p.0 as int, p.1 as int, Cell::Bomb);
        let rest = props.drop_first();
        assert(st.is_candidate(props[0].0 as int, props[0].1 as int, ix, iy));
        lemma_set_at(st, p.0 as int, p.1 as int, Cell::Bomb);
        assert forall|k: int| 0 <= k < rest.len() implies st1.is_candidate(
            (#[trigger] rest[k]).0 as int,
            rest[k].1 as int,
            ix,
            iy,
        ) by {
            assert(rest[k] == props[k + 1]);
            assert(st.is_candidate(props[k + 1].0 as int, props[k + 1].1 as int, ix, iy));
            assert(props[k + 1] != props[0]);
        }
        assert(rest.no_duplicates());
        lemma_proposals_all_placed(st1, ix, iy, placed + 1, rest);
        assert forall|a: int, b: int| st.in_bounds(a, b) implies #[trigger] st.with_proposals(
            ix,
            iy,
            placed,
            props,
        ).at(a, b) == if props.contains((a as usize, b as usize)) {
            Cell::Bomb
        } else {
            st.at(a, b)
        } by {
            let q = (a as usize, b as usize);
            assert(st1.in_bounds(a, b));
            if props.contains(q) {
                let k = choose|k: int| 0 <= k < props.len() && props[k] == q;
                if k > 0 {
                    assert(rest[k - 1] == q);
                    assert(rest.contains(q));
                }
            } else {
                assert(!rest.contains(q)) by {
                    if rest.contains(q) {
                        let k = choose|k: int| 0 <= k < rest.len() && rest[k] == q;
                        assert(props[k + 1] == q);
                    }
                }
                assert(q != props[0]);
            }
        }
    }
}

/// No bomb lies among the first `d` neighbours of `(x, y)` when none of them holds one.
pub proof fn lemma_bombs_among_none(st: FieldState, x: int, y: int, d: nat)
    requires
        d <= 8,
        forall|k: int| 0 <= k < d ==> !st.bomb_at(x + (#[trigger] offset(k)).0, y + offset(k).1),
    ensures
        st.bombs_among(x, y, d) == 0,
    decreases d,
{
    if d > 0 {
        lemma_bombs_among_none(st, x, y, (d - 1) as nat);
        assert(!st.bomb_at(x + offset(d - 1).0, y + offset(d - 1).1));
    }
}

/// Bombs laid for a first click at `(x, y)` on a field without bombs spare that cell
/// and its neighbours: the cell is as it was and has no bomb around.
pub proof fn lemma_first_click_clear(old: FieldState, x: int, y: int, mined: FieldState)
    requires
        old.wf(),
        old.no_bombs(),
        old.mined_into(x, y, mined),
        old.in_bounds(x, y),
    ensures
        mined.at(x, y) == old.at(x, y),
        mined.bomb_count(x, y) == 0,
{
    let placed = choose|placed: Seq<(usize, usize)>|
        {
            &&& placed.no_duplicates()
            &&& placed.len() == old.num_mines
            &&& forall|k: int|
                0 <= k < placed.len() ==> old.mine_candidates(x, y).contains(#[trigger] placed[k])
            &&& forall|a: int, b: int|
                old.in_bounds(a, b) ==> #[trigger] mined.at(a, b) == if placed.contains(
                    (a as usize, b as usize),
                ) {
                    Cell::Bomb
                } else {
                    old.at(a, b)
                }
        };
    lemma_candidates_upto(old, old.height, x, y);
    assert forall|a: int, b: int|
        old.in_bounds(a, b) && is_near(a, b, x, y, 1) implies #[trigger] mined.at(a, b) == old.at(
        a,
        b,
    ) by {
        let q = (a as usize, b as usize);
        if placed.contains(q) {
            let k = choose|k: int| 0 <= k < placed.len() && placed[k] == q;
            assert(old.mine_candidates(x, y).contains(placed[k]));
        }
    }
    assert(mined.at(x, y) == old.at(x, y));
    assert forall|k: int| 0 <= k < 8 implies !mined.bomb_at(
        x + (#[trigger] offset(k)).0,
        y + offset(k).1,
    ) by {
        let a = x + offset(k).0;
        let b = y + offset(k).1;
        if mined.in_bounds(a, b) {
            assert(mined.at(a, b) == old.at(a, b));
            assert(!old.bomb_at(a, b));
        }
    }
    lemma_bombs_among_none(mined, x, y, 8);
}

/// How many of the numbers below `n` lie within distance 1 of `c`.
pub open spec fn near_count(n: nat, c: int) -> nat
    decreases n,
{
    if n == 0 {
        0
    } else {
        near_count((n - 1) as nat, c) + if -1 <= (n - 1) - c <= 1 {
            1nat
        } else {
            0nat
        }
    }
}

proof fn lemma_near_count_bound(n: nat, c: int)
    ensures
        near_count(n, c) <= 3,
        near_count(n, c) <= if n <= c - 1 {
            0
        } else if n <= c + 2 {
            n - c + 1
        } else {
            3
        },
    decreases n,
{
    if n > 0 {
        lemma_near_count_bound((n - 1) as nat, c);
    }
}

/// On a field of plain covered cells, a row loses at most its cells near the first click.
proof fn lemma_row_candidates_len(st: FieldState, y: nat, n: nat, ix: int, iy: int)
    requires
        st.wf(),
        n <= st.width,
        y < st.height,
        forall|a: int, b: int| st.in_bounds(a, b) ==> #[trigger] st.at(a, b) is Empty,
    ensures
        st.row_candidates(y, n, ix, iy).len() + (if -1 <= y - iy <= 1 {
            near_count(n, ix)
        } else {
            0
        }) >= n,
    decreases n,
{
    if n > 0 {
        lemma_row_candidates_len(st, y, (n - 1) as nat, ix, iy);
    }
}

/// On a field of plain covered cells, the first rows lose at most the cells near the first click.
proof fn lemma_candidates_upto_len(st: FieldState, rows: nat, ix: int, iy: int)
    requires
        st.wf(),
        rows <= st.height,
        forall|a: int, b: int| st.in_bounds(a, b) ==> #[trigger] st.at(a, b) is Empty,
    ensures
        st.candidates_upto(rows, ix, iy).len() + 3 * near_count(rows, iy) >= rows * st.width,
    decreases rows,
{
    if rows > 0 {
        let y = (rows - 1) as nat;
        lemma_candidates_upto_len(st, y, ix, iy);
        lemma_row_candidates_len(st, y, st.width, ix, iy);
        lemma_near_count_bound(st.width, ix);
        assert(rows * st.width == y * st.width + st.width) by (nonlinear_arith)
            requires
                rows == y + 1,
        ;
        assert(st.candidates_upto(rows, ix, iy) == st.candidates_upto(y, ix, iy) + st.row_candidates(
            y,
            st.width,
            ix,
            iy,
        ));
        assert(near_count(rows, iy) == near_count(y, iy) + if -1 <= y - iy <= 1 {
            1nat
        } else {
            0nat
        });
    } else {
        assert(rows * st.width == 0) by (nonlinear_arith)
            requires
                rows == 0,
        ;
    }
}

/// On a field of plain covered cells, every cell but the clicked one and its (at most
/// eight) neighbours may receive a bomb.
pub proof fn lemma_mine_candidates_len(st: FieldState, ix: int, iy: int)
    requires
        st.wf(),
        forall|a: int, b: int| st.in_bounds(a, b) ==> #[trigger] st.at(a, b) is Empty,
    ensures
        st.mine_candidates(ix, iy).len() + 9 >= st.width * st.height,
{
    lemma_candidates_upto_len(st, st.height, ix, iy);
    lemma_near_count_bound(st.height, iy);
    assert(st.height * st.width == st.width * st.height) by (nonlinear_arith);
}

/// `n` draws of which the first names candidate `i` and the others the first candidate left.
pub open spec fn draws_starting_with(i: usize, n: nat) -> Seq<usize> {
    Seq::new(n, |k: int| if k == 0 { i } else { 0usize })
}

/// Whatever the click, every candidate is among the bombs for some outcome of the draws:
/// the draws that take it first.
pub proof fn lemma_any_candidate_drawable(cands: Seq<(usize, usize)>, n: nat, i: usize)
    requires
        1 <= n <= cands.len(),
        i < cands.len(),
    ensures
        valid_draws(cands.len(), draws_starting_with(i, n)),
        drawn(cands, draws_starting_with(i, n)).contains(cands[i as int]),
{
    let d = draws_starting_with(i, n);
    lemma_drawn_first(cands, d);
    assert(drawn(cands, d)[0] == cands[i as int]);
}

} // verus!
