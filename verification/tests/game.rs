use minesweeper::config::Mode;
use minesweeper::field::Cell;
use minesweeper::game::controller::{Action, GameController};
use minesweeper::game::view::{FieldView, GameOver, Input, Position};

#[test]
fn view_starts_top_left() {
    let v = FieldView::new(Mode::Easy);
    assert_eq!(v.cursor(), Position { x: 4, y: 3 });
    let v = FieldView::new(Mode::Hard);
    assert_eq!(v.cursor(), Position { x: 5, y: 4 });
}

#[test]
fn cursor_moves_stay_in_the_field() {
    let mut v = FieldView::new(Mode::Easy);
    assert_eq!(v.handle_input(Input::Up), Some(Action::Idle));
    assert_eq!(v.cursor(), Position { x: 4, y: 3 });
    assert_eq!(v.handle_input(Input::Left), Some(Action::Idle));
    assert_eq!(v.cursor(), Position { x: 4, y: 3 });
    assert_eq!(v.handle_input(Input::Down), Some(Action::Idle));
    assert_eq!(v.handle_input(Input::Right), Some(Action::Idle));
    assert_eq!(v.cursor(), Position { x: 7, y: 4 });
    for _ in 0..20 {
        v.handle_input(Input::Right);
        v.handle_input(Input::Down);
    }
    assert_eq!(v.cursor(), Position { x: 28, y: 11 });
    assert_eq!(v.handle_input(Input::Uncover), Some(Action::Uncover(8, 8)));
    assert_eq!(v.info_line(""), "Uncovered (8, 8). No Bomb!");
    assert_eq!(v.handle_input(Input::Flag), Some(Action::SetFlag(8, 8)));
    assert_eq!(v.info_line(""), "Flag set at (8, 8).");
    assert_eq!(v.handle_input(Input::Quit), Some(Action::Quit));
}

#[test]
fn mouse_press_picks_the_cell() {
    let mut v = FieldView::new(Mode::Easy);
    assert_eq!(v.handle_input(Input::Press { left: true, x: 12, y: 5 }), Some(Action::Uncover(2, 2)));
    assert_eq!(v.cursor(), Position { x: 10, y: 5 });
    assert_eq!(v.handle_input(Input::Press { left: false, x: 200, y: 0 }), Some(Action::SetFlag(8, 0)));
    assert_eq!(v.cursor(), Position { x: 28, y: 3 });
    assert_eq!(v.info_line("boom"), "boom");
    assert_eq!(v.info_line(""), "Flag set at (8, 0).");
}

#[test]
fn info_line_shows_the_cursor_cell() {
    let mut v = FieldView::new(Mode::Medium);
    assert_eq!(v.handle_input(Input::Other), None);
    assert_eq!(v.info_line(""), "(0,0)");
    v.handle_input(Input::Down);
    v.handle_input(Input::Right);
    v.handle_input(Input::Right);
    assert_eq!(v.info_line(""), "(2,1)");
    v.handle_input(Input::Down);
    // the note stays until the next event
    assert_eq!(v.info_line("x"), "x");
    assert_eq!(v.info_line(""), "(2,2)");
    assert_eq!(v.info_line(""), "(2,2)");
}

#[test]
fn game_over_messages() {
    assert_eq!(GameOver::Quit.message(), "You quit.");
    assert_eq!(GameOver::Won.message(), "You won! Congratulations.");
    assert_eq!(GameOver::Lost.message(), "You lost. Try again.");
}

#[test]
fn controller_steps() {
    let mut g = GameController::new(Mode::Easy);
    assert_eq!(g.info(), "");
    assert_eq!(g.step(Action::Idle), None);
    assert_eq!(g.step(Action::SetFlag(0, 0)), None);
    assert_eq!(g.info(), "");
    assert_eq!(g.step(Action::Uncover(0, 0)), None);
    assert_eq!(g.info(), "This Cell is flagged, and cannot be clicked.");
    assert_eq!(g.step(Action::SetFlag(9, 0)), None);
    assert_eq!(g.info(), "Access out of Bounds");
    assert_eq!(g.step(Action::SetFlag(0, 0)), None);
    // the flagged first click laid the bombs away from (0, 0) and its neighbours
    assert_eq!(g.step(Action::Uncover(1, 1)), None);
    assert_eq!(g.info(), "");
    assert!(matches!(*g.field().get(1, 1).unwrap(), Cell::Uncovered { .. }));
    assert_eq!(g.step(Action::Uncover(1, 1)), None);
    assert_eq!(g.info(), "This Cell is already uncovered.");
    assert_eq!(g.step(Action::Idle), None);
    assert_eq!(g.info(), "");
    assert_eq!(g.step(Action::Quit), Some(GameOver::Quit));
    assert!(g.field().won());
}

#[test]
fn controller_loses_on_a_bomb() {
    let mut g = GameController::new(Mode::Easy);
    assert_eq!(g.step(Action::Uncover(0, 0)), None);
    let mut bomb = None;
    for y in 0..9u16 {
        for x in 0..9u16 {
            if g.field().get(x as usize, y as usize).unwrap().is_bomb() {
                bomb = Some((x, y));
            }
        }
    }
    let (x, y) = bomb.unwrap();
    assert_eq!(g.step(Action::Uncover(x, y)), Some(GameOver::Lost));
    assert_eq!(*g.field().get(x as usize, y as usize).unwrap(), Cell::Flagged { is_bomb: true });
}

#[test]
fn controller_wins_when_every_safe_cell_is_open() {
    let mut g = GameController::new(Mode::Easy);
    assert_eq!(g.step(Action::Uncover(4, 4)), None);
    let mut result = None;
    for y in 0..9u16 {
        for x in 0..9u16 {
            let c = *g.field().get(x as usize, y as usize).unwrap();
            if c == Cell::Empty {
                result = g.step(Action::Uncover(x, y));
                if result.is_some() {
                    break;
                }
            }
        }
        if result.is_some() {
            break;
        }
    }
    assert_eq!(result, Some(GameOver::Won));
}
