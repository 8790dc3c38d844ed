use minesweeper::field::{Cell, Field, Mode};

fn cell(f: &Field, x: usize, y: usize) -> Cell {
    *f.get(x, y).unwrap()
}

fn count_cells(f: &Field, pred: fn(&Cell) -> bool) -> usize {
    let mut n = 0;
    for y in 0..f.height() {
        for x in 0..f.width() {
            if pred(&cell(f, x, y)) {
                n += 1;
            }
        }
    }
    n
}

/// A 9x9 field with bombs at (5,5) and (8,8), laid for a first click at (0,0).
fn two_bomb_field() -> Field {
    let mut f = Field::new(Mode::EASY);
    f.place_mines(0, 0, &vec![(5, 5), (8, 8)]);
    f
}

#[test]
fn new_field_is_covered() {
    let f = Field::new(Mode::MEDIUM);
    assert_eq!(f.width(), 16);
    assert_eq!(f.height(), 16);
    assert_eq!(f.num_mines(), 40);
    assert_eq!(count_cells(&f, |c| *c == Cell::Empty), 256);
    assert!(!f.won());
}

#[test]
fn get_out_of_bounds() {
    let f = Field::new(Mode::EASY);
    assert_eq!(f.get(9, 0).unwrap_err(), "Access out of Bounds");
    assert_eq!(f.get(0, 9).unwrap_err(), "Access out of Bounds");
    assert_eq!(*f.get(8, 8).unwrap(), Cell::Empty);
}

#[test]
fn place_mines_skips_near_taken_and_extra_proposals() {
    let mut f = Field::new(Mode::EASY);
    // (1,1) is next to the first click, (3,3) comes twice, (9,0) lies outside.
    let mut props = vec![(1, 1), (3, 3), (3, 3), (9, 0)];
    for i in 0..9 {
        props.push((i, 8));
    }
    for i in 0..9 {
        props.push((i, 7));
    }
    f.place_mines(0, 0, &props);
    assert_eq!(count_cells(&f, |c| *c == Cell::Bomb), 10);
    assert_eq!(cell(&f, 1, 1), Cell::Empty);
    assert_eq!(cell(&f, 3, 3), Cell::Bomb);
    for i in 0..9 {
        assert_eq!(cell(&f, i, 8), Cell::Bomb);
    }
    for i in 0..9 {
        assert_eq!(cell(&f, i, 7), Cell::Empty);
    }
}

#[test]
fn click_spreads_over_cells_without_bombs_around() {
    let mut f = two_bomb_field();
    assert_eq!(f.click(0, 0), Ok(true));
    assert_eq!(cell(&f, 0, 0), Cell::Uncovered { num_bombs: 0 });
    assert_eq!(cell(&f, 4, 4), Cell::Uncovered { num_bombs: 1 });
    assert_eq!(cell(&f, 6, 6), Cell::Uncovered { num_bombs: 1 });
    assert_eq!(cell(&f, 7, 7), Cell::Uncovered { num_bombs: 1 });
    assert_eq!(cell(&f, 6, 8), Cell::Uncovered { num_bombs: 0 });
    assert_eq!(cell(&f, 5, 5), Cell::Bomb);
    assert_eq!(cell(&f, 8, 8), Cell::Bomb);
    assert_eq!(count_cells(&f, |c| matches!(c, Cell::Uncovered { .. })), 79);
    assert!(f.won());
}

#[test]
fn click_with_bombs_around_uncovers_one_cell() {
    let mut f = two_bomb_field();
    assert_eq!(f.click(4, 5), Ok(true));
    assert_eq!(cell(&f, 4, 5), Cell::Uncovered { num_bombs: 1 });
    assert_eq!(count_cells(&f, |c| matches!(c, Cell::Uncovered { .. })), 1);
    assert!(!f.won());
}

#[test]
fn click_stops_at_flags() {
    let mut f = Field::new(Mode::EASY);
    f.place_mines(0, 0, &vec![(8, 8)]);
    // wall off column 4 with flags
    for y in 0..9 {
        assert_eq!(f.toggle_flag(4, y), Ok(()));
    }
    assert_eq!(f.click(0, 0), Ok(true));
    assert_eq!(count_cells(&f, |c| matches!(c, Cell::Uncovered { .. })), 36);
    assert_eq!(cell(&f, 5, 0), Cell::Empty);
}

#[test]
fn click_on_bomb_loses() {
    let mut f = two_bomb_field();
    assert_eq!(f.click(5, 5), Ok(false));
    assert_eq!(cell(&f, 5, 5), Cell::Bomb);
    assert_eq!(count_cells(&f, |c| matches!(c, Cell::Uncovered { .. })), 0);
}

#[test]
fn click_errors() {
    let mut f = two_bomb_field();
    assert_eq!(f.click(9, 0), Err(String::from("Access out of Bounds")));
    assert_eq!(f.click(4, 5), Ok(true));
    assert_eq!(f.click(4, 5), Err(String::from("This Cell is already uncovered.")));
    assert_eq!(f.toggle_flag(1, 1), Ok(()));
    assert_eq!(f.click(1, 1), Err(String::from("This Cell is flagged, and cannot be clicked.")));
}

#[test]
fn toggle_flag_twice_restores_the_cell() {
    let mut f = two_bomb_field();
    assert_eq!(f.toggle_flag(5, 5), Ok(()));
    assert_eq!(cell(&f, 5, 5), Cell::Flagged { is_bomb: true });
    assert_eq!(f.toggle_flag(5, 5), Ok(()));
    assert_eq!(cell(&f, 5, 5), Cell::Bomb);
    assert_eq!(f.toggle_flag(2, 2), Ok(()));
    assert_eq!(cell(&f, 2, 2), Cell::Flagged { is_bomb: false });
    assert_eq!(f.toggle_flag(2, 2), Ok(()));
    assert_eq!(cell(&f, 2, 2), Cell::Empty);
}

#[test]
fn toggle_flag_errors() {
    let mut f = two_bomb_field();
    assert_eq!(f.toggle_flag(0, 9), Err(String::from("Access out of Bounds")));
    assert_eq!(f.click(4, 5), Ok(true));
    assert_eq!(f.toggle_flag(4, 5), Err(String::from("This Field is already uncovered.")));
    assert_eq!(cell(&f, 4, 5), Cell::Uncovered { num_bombs: 1 });
}

#[test]
fn uncover_reveals_everything() {
    let mut f = two_bomb_field();
    assert_eq!(f.toggle_flag(8, 8), Ok(()));
    assert_eq!(f.toggle_flag(0, 0), Ok(()));
    f.uncover();
    assert_eq!(cell(&f, 5, 5), Cell::Flagged { is_bomb: true });
    assert_eq!(cell(&f, 8, 8), Cell::Flagged { is_bomb: true });
    assert_eq!(cell(&f, 0, 0), Cell::Uncovered { num_bombs: 0 });
    assert_eq!(cell(&f, 7, 8), Cell::Uncovered { num_bombs: 1 });
    assert_eq!(cell(&f, 4, 4), Cell::Uncovered { num_bombs: 1 });
    assert!(f.won());
    let before: Vec<Cell> = (0..81).map(|i| cell(&f, i % 9, i / 9)).collect();
    f.uncover();
    let after: Vec<Cell> = (0..81).map(|i| cell(&f, i % 9, i / 9)).collect();
    assert_eq!(before, after);
}

#[test]
fn won_needs_flagged_safe_cells_uncovered() {
    let mut f = two_bomb_field();
    assert_eq!(f.toggle_flag(2, 2), Ok(()));
    assert_eq!(f.click(0, 8), Ok(true));
    assert_eq!(cell(&f, 2, 2), Cell::Flagged { is_bomb: false });
    assert!(!f.won());
    assert_eq!(f.toggle_flag(2, 2), Ok(()));
    assert_eq!(f.click(2, 2), Ok(true));
    assert!(f.won());
}

#[test]
fn first_click_is_safe_and_lays_every_bomb() {
    for &(x, y) in &[(0usize, 0usize), (4, 4), (8, 0), (3, 8)] {
        let mut f = Field::new(Mode::EASY);
        assert_eq!(f.click(x, y), Ok(true));
        assert_eq!(cell(&f, x, y), Cell::Uncovered { num_bombs: 0 });
        f.uncover();
        assert_eq!(count_cells(&f, |c| *c == Cell::Flagged { is_bomb: true }), 10);
        for dy in 0..3 {
            for dx in 0..3 {
                let (nx, ny) = (x + dx, y + dy);
                if nx >= 1 && ny >= 1 && nx - 1 < 9 && ny - 1 < 9 {
                    assert!(!cell(&f, nx - 1, ny - 1).is_bomb());
                }
            }
        }
    }
}

#[test]
fn first_click_outside_still_lays_bombs() {
    let mut f = Field::new(Mode::HARD);
    assert_eq!(f.click(30, 30), Err(String::from("Access out of Bounds")));
    f.uncover();
    assert_eq!(count_cells(&f, |c| *c == Cell::Flagged { is_bomb: true }), 99);
}

#[test]
fn flag_before_first_click_is_kept() {
    let mut f = Field::new(Mode::EASY);
    assert_eq!(f.toggle_flag(8, 8), Ok(()));
    assert_eq!(f.click(0, 0), Ok(true));
    assert_eq!(cell(&f, 8, 8), Cell::Flagged { is_bomb: false });
}

#[test]
fn cell_methods() {
    let mut c = Cell::Empty;
    assert!(c.place_flag());
    assert_eq!(c, Cell::Flagged { is_bomb: false });
    assert!(!c.is_bomb());
    c.place_bomb();
    assert!(c.is_bomb());
    assert!(c.place_flag());
    assert_eq!(c, Cell::Flagged { is_bomb: true });
    assert!(c.is_bomb());
    assert!(c.place_flag());
    assert_eq!(c, Cell::Bomb);
    c.uncover(3);
    assert_eq!(c, Cell::Uncovered { num_bombs: 3 });
    assert!(!c.place_flag());
    assert_eq!(c, Cell::Uncovered { num_bombs: 3 });
}

#[test]
fn room_for_mines_needs_plain_cells() {
    let mut f = Field::new(Mode::EASY);
    assert!(f.room_for_mines(0, 0));
    assert!(f.room_for_mines(40, 40));
    f.uncover();
    assert!(!f.room_for_mines(0, 0));
    let mut g = Field::new(Mode::EASY);
    g.place_mines(0, 0, &vec![(5, 5)]);
    assert!(g.room_for_mines(0, 0));
}
