use minesweeper::field::{Cell, Field, Mode};
use minesweeper::render::Palette;

fn plain_palette() -> Palette {
    Palette { fg: (0..13).map(|i| format!("<{}>", i)).collect(), reset: String::from("</>") }
}

#[test]
fn cell_texts() {
    let p = plain_palette();
    assert_eq!(Cell::Uncovered { num_bombs: 0 }.render(&p), "[ ]");
    assert_eq!(Cell::Uncovered { num_bombs: 1 }.render(&p), "[<12>1</>]");
    assert_eq!(Cell::Uncovered { num_bombs: 3 }.render(&p), "[<6>3</>]");
    assert_eq!(Cell::Uncovered { num_bombs: 7 }.render(&p), "[<0>7</>]");
    assert_eq!(Cell::Uncovered { num_bombs: 8 }.render(&p), "[<8>8</>]");
    assert_eq!(Cell::Flagged { is_bomb: false }.render(&p), "[<1>F</>]");
    assert_eq!(Cell::Flagged { is_bomb: true }.render(&p), "[<1>F</>]");
    assert_eq!(Cell::Empty.render(&p), "[*]");
    assert_eq!(Cell::Bomb.render(&p), "[*]");
}

#[test]
fn terminal_palette() {
    let p = Palette::terminal();
    assert_eq!(p.fg.len(), 13);
    for (i, s) in p.fg.iter().enumerate() {
        assert!(s.is_empty() || *s == format!("\x1b[38;5;{}m", i), "{:?}", s);
    }
    assert_eq!(p.reset, "\x1b[39m");
    let any_color = p.fg.iter().any(|s| !s.is_empty());
    let all_color = p.fg.iter().all(|s| !s.is_empty());
    assert_eq!(any_color, all_color);
}

#[test]
fn render_fresh_easy_field() {
    let f = Field::new(Mode::EASY);
    let mut expected = String::new();
    expected.push_str("   0  1  2  3  4  5  6  7  8 \n\r");
    for y in 0..9 {
        expected.push_str(&format!("{} {} {}\n\r", y, "[*]".repeat(9), y));
    }
    expected.push_str("   0  1  2  3  4  5  6  7  8 \n\r");
    expected.push_str("Bombs: 10, Flags: 0\n\r");
    assert_eq!(f.render(&plain_palette()), expected);
}

#[test]
fn render_medium_field_with_flags() {
    let mut f = Field::new(Mode::MEDIUM);
    f.place_mines(0, 0, &vec![(15, 15)]);
    assert_eq!(f.toggle_flag(15, 15), Ok(()));
    assert_eq!(f.toggle_flag(3, 12), Ok(()));
    let text = f.render(&plain_palette());
    let lines: Vec<&str> = text.split("\n\r").collect();
    assert_eq!(lines.len(), 22);
    assert_eq!(lines[0], format!("{}1  1  1  1  1  1 ", " ".repeat(34)));
    assert_eq!(lines[1], "    0  1  2  3  4  5  6  7  8  9  0  1  2  3  4  5 ");
    assert_eq!(lines[2], format!("0  {}  0", "[*]".repeat(16)));
    assert_eq!(lines[14], format!("12 {}[<1>F</>]{} 12", "[*]".repeat(3), "[*]".repeat(12)));
    assert_eq!(lines[17], format!("15 {}[<1>F</>] 15", "[*]".repeat(15)));
    assert_eq!(lines[18], lines[0]);
    assert_eq!(lines[19], lines[1]);
    assert_eq!(lines[20], "Bombs: 40, Flags: 2");
    assert_eq!(lines[21], "");
}

#[test]
fn render_uncovered_cells() {
    let mut f = Field::new(Mode::EASY);
    f.place_mines(0, 0, &vec![(5, 5), (8, 8)]);
    assert_eq!(f.click(4, 5), Ok(true));
    let text = f.render(&plain_palette());
    let lines: Vec<&str> = text.split("\n\r").collect();
    assert_eq!(lines[6], format!("5 {}[<12>1</>]{} 5", "[*]".repeat(4), "[*]".repeat(4)));
}
