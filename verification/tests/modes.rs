use minesweeper::config::{Args, Mode};
use minesweeper::field::Mode as FieldMode;

#[test]
fn mode_sizes() {
    assert_eq!(Mode::Easy.x_size(), 9);
    assert_eq!(Mode::Easy.y_size(), 9);
    assert_eq!(Mode::Easy.bombs(), 10);
    assert_eq!(Mode::Medium.x_size(), 16);
    assert_eq!(Mode::Medium.y_size(), 16);
    assert_eq!(Mode::Medium.bombs(), 40);
    assert_eq!(Mode::Hard.x_size(), 24);
    assert_eq!(Mode::Hard.y_size(), 24);
    assert_eq!(Mode::Hard.bombs(), 99);
}

#[test]
fn field_mode_sizes() {
    assert_eq!(FieldMode::EASY.x_size(), 9);
    assert_eq!(FieldMode::EASY.y_size(), 9);
    assert_eq!(FieldMode::EASY.bombs(), 10);
    assert_eq!(FieldMode::MEDIUM.x_size(), 16);
    assert_eq!(FieldMode::MEDIUM.y_size(), 16);
    assert_eq!(FieldMode::MEDIUM.bombs(), 40);
    assert_eq!(FieldMode::HARD.x_size(), 24);
    assert_eq!(FieldMode::HARD.y_size(), 24);
    assert_eq!(FieldMode::HARD.bombs(), 99);
}

#[test]
fn mode_names() {
    assert_eq!(Mode::Easy.name(), "easy");
    assert_eq!(Mode::Medium.name(), "medium");
    assert_eq!(Mode::Hard.name(), "hard");
}

#[test]
fn args_hold_the_difficulty() {
    let args = Args { difficulty: Mode::Hard };
    assert_eq!(args.difficulty, Mode::Hard);
}
