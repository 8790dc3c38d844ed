use vstd::prelude::*;

use crate::field::{
    lemma_bombs_among_same, lemma_set_at, revealed_cell, uncovered_msg, Cell, FieldState, Mode,
};
use crate::game::controller::Action;
use crate::game::view::{clamped, FieldViewState, Input};
use crate::mining::{drawn, lemma_any_candidate_drawable, lemma_mine_candidates_len, valid_draws};
use crate::render::{decimal, lemma_header_blocks, line_end, spaces, Palette};

verus! {

/// Toggling the flag on a covered cell twice gives back the field it started from:
/// a placed flag is removed by the next toggle, and a removed one comes back.
pub proof fn toggle_flag_twice_restores(s0: FieldState, x: int, y: int)
    requires
        s0.wf(),
        s0.in_bounds(x, y),
        !(s0.at(x, y) is Uncovered),
    ensures
        ({
            let s1 = s0.set_at(x, y, s0.at(x, y).flag_toggled());
            &&& !(s1.at(x, y) is Uncovered)
            &&& s1.set_at(x, y, s1.at(x, y).flag_toggled()) == s0
        }),
{
    let s1 = s0.set_at(x, y, s0.at(x, y).flag_toggled());
    lemma_set_at(s0, x, y, s0.at(x, y).flag_toggled());
    let s2 = s1.set_at(x, y, s1.at(x, y).flag_toggled());
    crate::field::lemma_index_in_range(x, y, s0.width as int, s0.height as int);
    assert(s2.cells =~= s0.cells);
}

/// A cell is revealed at most once: after a click that returned `true`, clicking the
/// same cell again fails with the message for uncovered cells and changes nothing.
pub proof fn click_twice_fails(
    s0: FieldState,
    x: int,
    y: int,
    r1: Result<bool, String>,
    s1: FieldState,
    r2: Result<bool, String>,
    s2: FieldState,
)
    requires
        s0.playable(),
        s0.clicked(x, y, r1, s1),
        s1.clicked(x, y, r2, s2),
        r1 == Ok::<bool, String>(true),
    ensures
        s2 == s1,
        r2 matches Err(e) && e@ == uncovered_msg(),
{
    let st = if s0.initialized {
        s0
    } else {
        choose|mined: FieldState| s0.mined_into(x, y, mined) && mined.click_outcome(x, y, r1, s1)
    };
    assert(st.click_outcome(x, y, r1, s1));
    assert(st.in_bounds(x, y));
    assert(st.at(x, y) is Empty);
    assert(st.is_reveal_path(seq![(x, y)]));
    assert(st.reveals((x, y), (x, y)));
    assert(s1.at(x, y) is Uncovered);
}

/// Uncovering the whole field a second time changes nothing.
pub proof fn uncover_is_idempotent(s0: FieldState, s1: FieldState, s2: FieldState)
    requires
        s0.wf(),
        s1.same_shape(s0),
        s2.same_shape(s1),
        s1.same_bombs(s0),
        forall|a: int, b: int|
            s0.in_bounds(a, b) ==> #[trigger] s1.at(a, b) == revealed_cell(
                s0.at(a, b),
                s0.bomb_count(a, b),
            ),
        forall|a: int, b: int|
            s1.in_bounds(a, b) ==> #[trigger] s2.at(a, b) == revealed_cell(
                s1.at(a, b),
                s1.bomb_count(a, b),
            ),
    ensures
        forall|a: int, b: int| s0.in_bounds(a, b) ==> #[trigger] s2.at(a, b) == s1.at(a, b),
{
    assert forall|a: int, b: int| s0.in_bounds(a, b) implies #[trigger] s2.at(a, b) == s1.at(a, b) by {
        lemma_bombs_among_same(s0, s1, a, b, 8);
        assert(s1.at(a, b) == revealed_cell(s0.at(a, b), s0.bomb_count(a, b)));
        assert(s2.at(a, b) == revealed_cell(s1.at(a, b), s1.bomb_count(a, b)));
    }
}

/// Every mode leaves room for all of its bombs beside a first click and its neighbours.
pub proof fn modes_have_room(mode: Mode)
    ensures
        mode.bombs_of() + 9 <= mode.width_of() * mode.height_of(),
{
}

/// A field of plain covered cells with room for all its bombs beside the first click
/// and its neighbours (as every mode has, see [`modes_have_room`]) lets the first click
/// anywhere lay them all.
pub proof fn fresh_field_has_room(st: FieldState, ix: int, iy: int)
    requires
        st.wf(),
        forall|a: int, b: int| st.in_bounds(a, b) ==> #[trigger] st.at(a, b) is Empty,
        st.num_mines + 9 <= st.width * st.height,
    ensures
        st.room_for_mines(ix, iy),
{
    lemma_mine_candidates_len(st, ix, iy);
}

/// The number of bombs around a cell counts its eight neighbours that lie in the field
/// and hold a bomb.
pub proof fn bomb_count_counts_neighbours(st: FieldState, x: int, y: int)
    ensures
        st.bomb_count(x, y) == (if st.bomb_at(x - 1, y - 1) { 1int } else { 0 }) + (if st.bomb_at(
            x - 1,
            y,
        ) { 1int } else { 0 }) + (if st.bomb_at(x - 1, y + 1) { 1int } else { 0 }) + (if st.bomb_at(
            x,
            y - 1,
        ) { 1int } else { 0 }) + (if st.bomb_at(x, y + 1) { 1int } else { 0 }) + (if st.bomb_at(
            x + 1,
            y - 1,
        ) { 1int } else { 0 }) + (if st.bomb_at(x + 1, y) { 1int } else { 0 }) + (if st.bomb_at(
            x + 1,
            y + 1,
        ) { 1int } else { 0 }),
{
    reveal_with_fuel(FieldState::bombs_among, 9);
}

/// Uncovering the whole field flags every bomb, uncovers every covered cell without a bomb
/// (plain or wrongly flagged) showing the number of bombs around it, and leaves every
/// uncovered cell as it was.
pub proof fn uncover_shows_every_count(pre: FieldState, post: FieldState)
    requires
        pre.wf(),
        pre.uncovered_all(post),
    ensures
        forall|a: int, b: int|
            pre.in_bounds(a, b) ==> #[trigger] post.at(a, b) == if pre.at(a, b) is Uncovered {
                pre.at(a, b)
            } else if pre.at(a, b).holds_bomb() {
                Cell::Flagged { is_bomb: true }
            } else {
                Cell::Uncovered { num_bombs: pre.bomb_count(a, b) as u8 }
            },
{
    assert forall|a: int, b: int| pre.in_bounds(a, b) implies #[trigger] post.at(a, b) == if pre.at(
        a,
        b,
    ) is Uncovered {
        pre.at(a, b)
    } else if pre.at(a, b).holds_bomb() {
        Cell::Flagged { is_bomb: true }
    } else {
        Cell::Uncovered { num_bombs: pre.bomb_count(a, b) as u8 }
    } by {
        assert(post.at(a, b) == revealed_cell(pre.at(a, b), pre.bomb_count(a, b)));
    }
}

/// `Up` moves the cursor one line up, onto the cell above, unless it is on the top row;
/// it never moves sideways.
pub proof fn up_moves_one_row(v: FieldViewState, post: FieldViewState, a: Option<Action>)
    requires
        v.wf(),
        v.answer(Input::Up, post, a),
    ensures
        post.cursor.x == v.cursor.x,
        post.cursor.y == if v.cursor.y > v.min.y {
            v.cursor.y - 1
        } else {
            v.cursor.y as int
        },
        post.coords().0 == v.coords().0,
        post.coords().1 == if v.coords().1 > 0 {
            v.coords().1 - 1
        } else {
            0
        },
{
}

/// `Down` moves the cursor one line down, onto the cell below, unless it is on the bottom
/// row; it never moves sideways.
pub proof fn down_moves_one_row(v: FieldViewState, post: FieldViewState, a: Option<Action>)
    requires
        v.wf(),
        v.answer(Input::Down, post, a),
    ensures
        post.cursor.x == v.cursor.x,
        post.cursor.y == if v.cursor.y < v.max.y {
            v.cursor.y + 1
        } else {
            v.cursor.y as int
        },
        post.coords().0 == v.coords().0,
        post.coords().1 == if v.cursor.y < v.max.y {
            v.coords().1 + 1
        } else {
            v.coords().1
        },
{
}

/// `Left` moves the cursor one field column left, onto the cell beside it, unless it is in
/// the first column; it never moves up or down.
pub proof fn left_moves_one_column(v: FieldViewState, post: FieldViewState, a: Option<Action>)
    requires
        v.wf(),
        v.answer(Input::Left, post, a),
    ensures
        post.cursor.y == v.cursor.y,
        post.cursor.x == if v.cursor.x > v.min.x {
            v.cursor.x - 3
        } else {
            v.cursor.x as int
        },
        post.coords().1 == v.coords().1,
        post.coords().0 == if v.coords().0 > 0 {
            v.coords().0 - 1
        } else {
            0
        },
{
    assert(v.cursor.x > v.min.x ==> v.cursor.x >= v.min.x + 3);
    assert(v.cursor.x > v.min.x ==> (v.cursor.x - 3 - v.min.x) / 3 == (v.cursor.x - v.min.x) / 3 - 1);
}

/// `Right` moves the cursor one field column right, onto the cell beside it, unless it is
/// in the last column; it never moves up or down.
pub proof fn right_moves_one_column(v: FieldViewState, post: FieldViewState, a: Option<Action>)
    requires
        v.wf(),
        v.answer(Input::Right, post, a),
    ensures
        post.cursor.y == v.cursor.y,
        post.cursor.x == if v.cursor.x < v.max.x {
            v.cursor.x + 3
        } else {
            v.cursor.x as int
        },
        post.coords().1 == v.coords().1,
        post.coords().0 == if v.cursor.x < v.max.x {
            v.coords().0 + 1
        } else {
            v.coords().0
        },
{
    assert(v.cursor.x < v.max.x ==> v.cursor.x + 3 <= v.max.x);
    assert((v.cursor.x + 3 - v.min.x) / 3 == (v.cursor.x - v.min.x) / 3 + 1);
}

/// The bombs of a first click are the candidates taken by the random draws
/// ([`FieldState::mined_into`]); every candidate cell away from the click (the `i`-th, for
/// any `i`) is among them
/// for some outcome of the draws, so no candidate is left out of every game.
pub proof fn every_candidate_may_get_a_bomb(st: FieldState, ix: int, iy: int, i: usize)
    requires
        1 <= st.num_mines <= st.mine_candidates(ix, iy).len(),
        i < st.mine_candidates(ix, iy).len(),
    ensures
        exists|draws: Seq<usize>|
            {
                &&& valid_draws(st.mine_candidates(ix, iy).len(), draws)
                &&& draws.len() == st.num_mines
                &&& drawn(st.mine_candidates(ix, iy), draws).contains(
                    st.mine_candidates(ix, iy)[i as int],
                )
            },
{
    let cands = st.mine_candidates(ix, iy);
    lemma_any_candidate_drawable(cands, st.num_mines, i);
    let d = crate::mining::draws_starting_with(i, st.num_mines);
    assert(d.len() == st.num_mines);
}

/// The column headers of a drawn field spell out each column's number: above column `x`
/// stand the tens of `x` (on the first line, drawn when the field has more than 10 columns,
/// blank below 10) and then its units, each between two blanks, after the margin that
/// the row numbers take.
pub proof fn headers_spell_column_numbers(st: FieldState, palette: Palette, x: nat)
    requires
        st.wf(),
        st.width <= 100,
        x < st.width,
    ensures
        ({
            let t = st.field_text(palette);
            let k: int = (st.margin() + 1 + 3 * x) as int;
            let units_at: int = if st.width > 10 {
                (st.margin() + 1 + 3 * st.width + 2) as int
            } else {
                0
            };
            &&& st.width > 10 ==> t.subrange(k, k + 3) == if x > 9 {
                seq![' ', ((48 + x / 10) as char), ' ']
            } else {
                seq![' ', ' ', ' ']
            }
            &&& t.subrange(units_at + k, units_at + k + 3) == seq![' ', ((48 + x % 10) as char), ' ']
        }),
{
    let t = st.field_text(palette);
    let m = st.margin();
    let k: int = (m + 1 + 3 * x) as int;
    let units_at: int = if st.width > 10 {
        (m + 1 + 3 * st.width + 2) as int
    } else {
        0
    };
    let head = st.tens_line() + st.ones_header();
    lemma_head_slices(st, x);
    lemma_prefix_of_field_text(st, palette);
    if st.width > 10 {
        lemma_subrange_prefix(head, t, k, k + 3);
    }
    lemma_subrange_prefix(head, t, units_at + k, units_at + k + 3);
}

/// The header lines of a field of at most 100 columns hold, above column `x`, its tens
/// (when there are more than 10 columns) and then its units.
proof fn lemma_head_slices(st: FieldState, x: nat)
    requires
        st.wf(),
        st.width <= 100,
        x < st.width,
    ensures
        ({
            let head = st.tens_line() + st.ones_header();
            let k: int = (st.margin() + 1 + 3 * x) as int;
            let units_at: int = if st.width > 10 {
                (st.margin() + 1 + 3 * st.width + 2) as int
            } else {
                0
            };
            &&& units_at + k + 3 <= head.len()
            &&& st.width > 10 ==> head.subrange(k, k + 3) == if x > 9 {
                seq![' ', ((48 + x / 10) as char), ' ']
            } else {
                seq![' ', ' ', ' ']
            }
            &&& head.subrange(units_at + k, units_at + k + 3) == seq![' ', ((48 + x % 10) as char), ' ']
        }),
{
    lemma_header_blocks(st.width, x);
    let m = st.margin();
    let k: int = (m + 1 + 3 * x) as int;
    let head = st.tens_line() + st.ones_header();
    let ones = spaces(m + 1) + crate::render::ones_cols(st.width);
    assert(st.ones_header() == ones);
    lemma_subrange_suffix(spaces(m + 1), crate::render::ones_cols(st.width), 3 * x as int, 3 * x as int + 3);
    if st.width > 10 {
        let tens = spaces(m + 1) + crate::render::tens_cols(st.width);
        assert(st.tens_line() == tens + line_end());
        lemma_subrange_suffix(spaces(m + 1), crate::render::tens_cols(st.width), 3 * x as int, 3 * x as int + 3);
        lemma_subrange_suffix(tens, line_end(), 0, 0);
        lemma_subrange_suffix(tens + line_end(), ones, 0, 0);
        lemma_subrange_prefix(tens, tens + line_end(), k, k + 3);
        lemma_subrange_prefix(tens + line_end(), head, k, k + 3);
        lemma_subrange_suffix(tens + line_end(), ones, k, k + 3);
    } else {
        assert(st.tens_line() == Seq::<char>::empty());
        assert(head =~= ones);
    }
}

/// A drawn field begins with its header lines.
proof fn lemma_prefix_of_field_text(st: FieldState, palette: Palette)
    ensures
        st.field_text(palette).subrange(
            0,
            (st.tens_line() + st.ones_header()).len() as int,
        ) == st.tens_line() + st.ones_header(),
{
    let head = st.tens_line() + st.ones_header();
    let t = st.field_text(palette);
    assert forall|i: int| 0 <= i < head.len() implies #[trigger] t[i] == head[i] by {
        assert(t == head + (line_end() + st.rows_text(palette, st.height) + st.tens_line()
            + st.ones_header() + line_end() + "Bombs: "@ + crate::render::decimal(st.num_mines)
            + ", Flags: "@ + crate::render::decimal(st.flags_upto(st.height)) + line_end()));
    }
    assert(t.subrange(0, head.len() as int) =~= head);
}

/// A slice inside the first part of a sequence is a slice of that part.
proof fn lemma_subrange_prefix(a: Seq<char>, t: Seq<char>, i: int, j: int)
    requires
        0 <= i <= j <= a.len() <= t.len(),
        t.subrange(0, a.len() as int) == a,
    ensures
        t.subrange(i, j) == a.subrange(i, j),
{
    assert(t.subrange(i, j) =~= a.subrange(i, j)) by {
        assert forall|n: int| 0 <= n < j - i implies t.subrange(i, j)[n] == a.subrange(i, j)[n] by {
            assert(t.subrange(0, a.len() as int)[i + n] == t[i + n]);
        }
    }
}

/// A slice of the second part of a concatenation, shifted by the first part's length.
proof fn lemma_subrange_suffix(a: Seq<char>, b: Seq<char>, i: int, j: int)
    requires
        0 <= i <= j <= b.len(),
    ensures
        (a + b).subrange(a.len() + i, a.len() + j) == b.subrange(i, j),
        (a + b).subrange(0, a.len() as int) == a,
{
    assert((a + b).subrange(a.len() + i, a.len() + j) =~= b.subrange(i, j));
    assert((a + b).subrange(0, a.len() as int) =~= a);
}

/// The number a string of decimal digits stands for.
pub open spec fn digits_value(s: Seq<char>) -> int
    decreases s.len(),
{
    if s.len() == 0 {
        0
    } else {
        digits_value(s.drop_last()) * 10 + (s.last() as int - 48)
    }
}

/// The decimal notation of a number reads back as that number: it is made of the digits
/// `0` to `9`, has no leading zero, and its digits stand for the number.
pub proof fn decimal_reads_back(n: nat)
    ensures
        decimal(n).len() >= 1,
        forall|i: int| 0 <= i < decimal(n).len() ==> '0' <= #[trigger] decimal(n)[i] <= '9',
        n > 0 ==> decimal(n)[0] != '0',
        digits_value(decimal(n)) == n,
    decreases n,
{
    if n >= 10 {
        decimal_reads_back(n / 10);
        let d = decimal(n);
        assert(d.drop_last() =~= decimal(n / 10));
        assert(d[0] == decimal(n / 10)[0]);
        assert forall|i: int| 0 <= i < d.len() implies '0' <= #[trigger] d[i] <= '9' by {
            if i < d.len() - 1 {
                assert(d[i] == decimal(n / 10)[i]);
            }
        }
        assert(d.last() as int - 48 == n % 10);
    } else {
        assert(decimal(n).drop_last() =~= Seq::<char>::empty());
        assert(digits_value(Seq::<char>::empty()) == 0);
        assert(decimal(n).last() as int - 48 == n);
    }
}

/// A mouse press puts the cursor on the field cell whose drawn column holds the pressed
/// column (a press outside the field counts at its nearest edge), on the pressed line, and
/// names that cell: the left button to uncover, any other to flag.
pub proof fn press_picks_the_pressed_cell(
    v: FieldViewState,
    left: bool,
    x: u16,
    y: u16,
    post: FieldViewState,
    a: Option<Action>,
)
    requires
        v.wf(),
        v.answer(Input::Press { left, x, y }, post, a),
    ensures
        ({
            let cx = clamped(x as int, v.min.x as int, v.max.x as int);
            let cy = clamped(y as int, v.min.y as int, v.max.y as int);
            &&& post.cursor.x <= cx < post.cursor.x + 3
            &&& (post.cursor.x - v.min.x) % 3 == 0
            &&& post.cursor.y == cy
            &&& v.min.x + 3 * post.coords().0 == post.cursor.x
            &&& v.min.y + post.coords().1 == cy
            &&& a == if left {
                Some(Action::Uncover(post.coords().0 as u16, post.coords().1 as u16))
            } else {
                Some(Action::SetFlag(post.coords().0 as u16, post.coords().1 as u16))
            }
        }),
{
}

/// Each drawn row begins with its own number, followed by a blank.
pub proof fn rows_begin_with_their_number(st: FieldState, palette: Palette, y: nat)
    requires
        st.wf(),
        y < st.height,
    ensures
        ({
            let line = st.row_line(palette, y);
            let k = decimal(y).len() as int;
            &&& digits_value(line.subrange(0, k)) == y
            &&& line[k] == ' '
        }),
{
    decimal_reads_back(y);
    crate::render::lemma_decimal_len_mono(y, st.height);
    let line = st.row_line(palette, y);
    let k = decimal(y).len() as int;
    let pad = spaces((st.margin() - decimal(y).len() + 1) as nat);
    assert(line == decimal(y) + (pad + st.row_cells(palette, y as int, st.width) + pad + decimal(y)
        + line_end()));
    assert(line.subrange(0, k) =~= decimal(y));
    assert(pad.len() >= 1);
    assert(line[k] == pad[0]);
}

} // verus!
