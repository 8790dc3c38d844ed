use vstd::prelude::*;

use crate::field::{lemma_index_in_range, Cell, Field, FieldState};

verus! {

/// The character of a decimal digit.
pub open spec fn digit_char(d: nat) -> char {
    if d == 0 {
        '0'
    } else if d == 1 {
        '1'
    } else if d == 2 {
        '2'
    } else if d == 3 {
        '3'
    } else if d == 4 {
        '4'
    } else if d == 5 {
        '5'
    } else if d == 6 {
        '6'
    } else if d == 7 {
        '7'
    } else if d == 8 {
        '8'
    } else {
        '9'
    }
}

/// The decimal notation of `n`, without leading zeros.
pub open spec fn decimal(n: nat) -> Seq<char>
    decreases n,
{
    if n < 10 {
        seq![digit_char(n)]
    } else {
        decimal(n / 10) + seq![digit_char(n % 10)]
    }
}

/// `n` blanks.
pub open spec fn spaces(n: nat) -> Seq<char> {
    Seq::new(n, |i: int| ' ')
}

/// The end of a line on a terminal in raw mode.
pub open spec fn line_end() -> Seq<char> {
    seq!['\n', '\r']
}

/// The sequence with which termion sets the foreground to a value of the ANSI palette.
pub open spec fn ansi_fg_seq(value: nat) -> Seq<char> {
    seq!['\x1b', '[', '3', '8', ';', '5', ';'] + decimal(value) + seq!['m']
}

/// The sequence with which termion resets the foreground colour.
pub open spec fn ansi_reset_seq() -> Seq<char> {
    seq!['\x1b', '[', '3', '9', 'm']
}

/// Longer numbers do not have shorter notations.
pub proof fn lemma_decimal_len_mono(a: nat, b: nat)
    requires
        a <= b,
    ensures
        decimal(a).len() <= decimal(b).len(),
    decreases b,
{
    if b >= 10 && a >= 10 {
        assert(a / 10 <= b / 10) by (nonlinear_arith)
            requires
                a <= b,
        ;
        lemma_decimal_len_mono(a / 10, b / 10);
    } else if b >= 10 {
        lemma_decimal_len_pos(b / 10);
    }
}

pub proof fn lemma_decimal_len_pos(n: nat)
    ensures
        decimal(n).len() >= 1,
    decreases n,
{
    if n >= 10 {
        lemma_decimal_len_pos(n / 10);
    }
}

/// Numbers below 10000 take at most four digits.
pub proof fn lemma_decimal_len_small(n: nat)
    requires
        n < 10000,
    ensures
        decimal(n).len() <= 4,
{
    lemma_decimal_len_mono(n, 9999);
    reveal_with_fuel(decimal, 4);
}

/// The text of a decimal digit.
fn digit_str(d: usize) -> (s: &'static str)
    requires
        d < 10,
    ensures
        s@ == seq![digit_char(d as nat)],
{
    proof {
        reveal_strlit("0");
        reveal_strlit("1");
        reveal_strlit("2");
        reveal_strlit("3");
        reveal_strlit("4");
        reveal_strlit("5");
        reveal_strlit("6");
        reveal_strlit("7");
        reveal_strlit("8");
        reveal_strlit("9");
    }
    if d == 0 {
        "0"
    } else if d == 1 {
        "1"
    } else if d == 2 {
        "2"
    } else if d == 3 {
        "3"
    } else if d == 4 {
        "4"
    } else if d == 5 {
        "5"
    } else if d == 6 {
        "6"
    } else if d == 7 {
        "7"
    } else if d == 8 {
        "8"
    } else {
        "9"
    }
}

/// Append the decimal notation of `n`.
pub fn push_decimal(s: &mut String, n: usize)
    ensures
        final(s)@ == old(s)@ + decimal(n as nat),
    decreases n,
{
    if n < 10 {
        s.append(digit_str(n));
    } else {
        push_decimal(s, n / 10);
        s.append(digit_str(n % 10));
    }
}

/// The number of digits in the decimal notation of `n`.
pub fn digit_count(n: usize) -> (r: usize)
    ensures
        r == decimal(n as nat).len(),
    decreases n,
{
    if n < 10 {
        1
    } else {
        let r = digit_count(n / 10);
        proof {
            lemma_decimal_len_le(n as nat / 10);
        }
        r + 1
    }
}

/// A notation has no more digits than its number has units.
proof fn lemma_decimal_len_le(n: nat)
    ensures
        decimal(n).len() <= n + 1,
    decreases n,
{
    if n >= 10 {
        lemma_decimal_len_le(n / 10);
    }
}

/// Append `n` blanks.
pub fn push_spaces(s: &mut String, n: usize)
    ensures
        final(s)@ == old(s)@ + spaces(n as nat),
{
    let ghost start = s@;
    for i in 0..n
        invariant
            s@ == start + spaces(i as nat),
    {
        proof {
            reveal_strlit(" ");
        }
        s.append(" ");
        assert(s@ =~= start + spaces((i + 1) as nat));
    }
}

/// Foreground colour of the ANSI palette value `value`, as termion formats
/// `termion::color::Fg(termion::color::AnsiValue(value))`: the sequence
/// `ESC [ 38;5;<value> m`, or nothing when colours are switched off through
/// the `NO_COLOR` environment variable, which termion reads once per process.
/// Which of the two comes back is not stated: it rests on the environment.
#[verifier::external_body]
fn ansi_fg(value: u8) -> (s: String)
    ensures
        s@ == ansi_fg_seq(value as nat) || s@ == Seq::<char>::empty(),
{
    format!("{}", termion::color::Fg(termion::color::AnsiValue(value)))
}

/// Foreground colour reset, as termion formats `termion::color::Fg(termion::color::Reset)`:
/// always the sequence `ESC [ 39 m`.
#[verifier::external_body]
fn ansi_reset() -> (s: String)
    ensures
        s@ == ansi_reset_seq(),
{
    format!("{}", termion::color::Fg(termion::color::Reset))
}

/// The colours the field is drawn with: the foreground sequence of each value of
/// the ANSI palette up to 12, and the sequence that resets the foreground.
pub struct Palette {
    pub fg: Vec<String>,
    pub reset: String,
}

impl Palette {
    pub open spec fn wf(&self) -> bool {
        self.fg.len() == 13
    }

    /// The foreground sequence of ANSI palette value `i`.
    pub open spec fn fg_text(&self, i: nat) -> Seq<char> {
        self.fg@[i as int]@
    }

    /// The colours of the terminal, as termion writes them.
    pub fn terminal() -> (p: Palette)
        ensures
            p.wf(),
            forall|i: nat|
                i < 13 ==> #[trigger] p.fg_text(i) == ansi_fg_seq(i) || p.fg_text(i)
                    == Seq::<char>::empty(),
            p.reset@ == ansi_reset_seq(),
    {
        let mut fg: Vec<String> = Vec::new();
        for v in 0..13u8
            invariant
                fg.len() == v,
                forall|i: int|
                    0 <= i < v ==> #[trigger] fg@[i]@ == ansi_fg_seq(i as nat) || fg@[i]@
                        == Seq::<char>::empty(),
        {
            fg.push(ansi_fg(v));
        }
        Palette { fg, reset: ansi_reset() }
    }
}

/// The ANSI palette value a number of surrounding bombs is shown in.
pub open spec fn color_of(n: u8) -> nat {
    match n {
        1 => 12,
        2 => 2,
        3 => 6,
        4 => 4,
        5 => 5,
        6 => 3,
        7 => 0,
        8 => 8,
        _ => 3,
    }
}

/// The ANSI palette value flags are shown in.
pub const COLOR_RED: u8 = 1;

fn color_lookup(i: u8) -> (v: u8)
    ensures
        v == color_of(i),
{
    match i {
        1 => 12,
        2 => 2,
        3 => 6,
        4 => 4,
        5 => 5,
        6 => 3,
        7 => 0,
        8 => 8,
        _ => 3,
    }
}

/// How a cell is drawn: `[ ]` for an uncovered cell without bombs around, the coloured
/// number of bombs for any other uncovered cell, a red `F` for a flag, `[*]` otherwise.
pub open spec fn cell_text(c: Cell, palette: Palette) -> Seq<char> {
    match c {
        Cell::Uncovered { num_bombs } => if num_bombs == 0 {
            seq!['[', ' ', ']']
        } else {
            seq!['['] + palette.fg_text(color_of(num_bombs)) + decimal(num_bombs as nat)
                + palette.reset@ + seq![']']
        },
        Cell::Flagged { .. } => seq!['['] + palette.fg_text(COLOR_RED as nat) + seq!['F']
            + palette.reset@ + seq![']'],
        _ => seq!['[', '*', ']'],
    }
}

impl Cell {
    /// Draw the cell.
    pub fn render(&self, palette: &Palette) -> (s: String)
        requires
            palette.wf(),
        ensures
            s@ == cell_text(*self, *palette),
    {
        proof {
            reveal_strlit("[ ]");
            reveal_strlit("[");
            reveal_strlit("]");
            reveal_strlit("F");
            reveal_strlit("[*]");
        }
        match self {
            Cell::Uncovered { num_bombs } => {
                if *num_bombs == 0 {
                    "[ ]".to_owned()
                } else {
                    let mut s = "[".to_owned();
                    s.append(palette.fg[color_lookup(*num_bombs) as usize].as_str());
                    push_decimal(&mut s, *num_bombs as usize);
                    s.append(palette.reset.as_str());
                    s.append("]");
                    s
                }
            },
            Cell::Flagged { .. } => {
                let mut s = "[".to_owned();
                s.append(palette.fg[COLOR_RED as usize].as_str());
                s.append("F");
                s.append(palette.reset.as_str());
                s.append("]");
                s
            },
            _ => "[*]".to_owned(),
        }
    }
}

/// The column headers up to column `n`: the tens of each column from 10 on.
pub open spec fn tens_cols(n: nat) -> Seq<char>
    decreases n,
{
    if n == 0 {
        Seq::empty()
    } else {
        let x = (n - 1) as nat;
        tens_cols(x) + if x > 9 {
            seq![' '] + decimal(x / 10) + seq![' ']
        } else {
            spaces(3)
        }
    }
}

/// The column headers up to column `n`: the units of each column.
pub open spec fn ones_cols(n: nat) -> Seq<char>
    decreases n,
{
    if n == 0 {
        Seq::empty()
    } else {
        let x = (n - 1) as nat;
        ones_cols(x) + seq![' '] + decimal(x % 10) + seq![' ']
    }
}

impl FieldState {
    /// The width of the row numbers at the sides: the digits of the height.
    pub open spec fn margin(self) -> nat {
        decimal(self.height).len()
    }

    /// The header line with the tens of the column numbers.
    pub open spec fn tens_header(self) -> Seq<char> {
        spaces(self.margin() + 1) + tens_cols(self.width)
    }

    /// The header line with the units of the column numbers.
    pub open spec fn ones_header(self) -> Seq<char> {
        spaces(self.margin() + 1) + ones_cols(self.width)
    }

    /// The tens header and its line end, present only when some column reaches 10.
    pub open spec fn tens_line(self) -> Seq<char> {
        if self.width > 10 {
            self.tens_header() + line_end()
        } else {
            Seq::empty()
        }
    }

    /// The first `n` cells of row `y`, drawn.
    pub open spec fn row_cells(self, palette: Palette, y: int, n: nat) -> Seq<char>
        decreases n,
    {
        if n == 0 {
            Seq::empty()
        } else {
            self.row_cells(palette, y, (n - 1) as nat) + cell_text(self.at(n - 1, y), palette)
        }
    }

    /// Row `y` with its number on both sides.
    pub open spec fn row_line(self, palette: Palette, y: nat) -> Seq<char> {
        let pad = spaces((self.margin() - decimal(y).len() + 1) as nat);
        decimal(y) + pad + self.row_cells(palette, y as int, self.width) + pad + decimal(y)
            + line_end()
    }

    /// The first `k` rows.
    pub open spec fn rows_text(self, palette: Palette, k: nat) -> Seq<char>
        decreases k,
    {
        if k == 0 {
            Seq::empty()
        } else {
            self.rows_text(palette, (k - 1) as nat) + self.row_line(palette, (k - 1) as nat)
        }
    }

    /// The number of flags among the first `n` cells of row `y`.
    pub open spec fn row_flags(self, y: int, n: nat) -> nat
        decreases n,
    {
        if n == 0 {
            0
        } else {
            self.row_flags(y, (n - 1) as nat) + if self.at(n - 1, y) is Flagged {
                1nat
            } else {
                0nat
            }
        }
    }

    /// The number of flags in the first `k` rows.
    pub open spec fn flags_upto(self, k: nat) -> nat
        decreases k,
    {
        if k == 0 {
            0
        } else {
            self.flags_upto((k - 1) as nat) + self.row_flags(k - 1, self.width)
        }
    }

    /// The whole field as drawn on the terminal: column headers, the rows, the column
    /// headers again, and a line with the number of bombs and of flags.
    pub open spec fn field_text(self, palette: Palette) -> Seq<char> {
        self.tens_line() + self.ones_header() + line_end() + self.rows_text(palette, self.height)
            + self.tens_line() + self.ones_header() + line_end() + "Bombs: "@ + decimal(
            self.num_mines,
        ) + ", Flags: "@ + decimal(self.flags_upto(self.height)) + line_end()
    }
}

proof fn lemma_row_flags_bound(st: FieldState, y: int, n: nat)
    ensures
        st.row_flags(y, n) <= n,
    decreases n,
{
    if n > 0 {
        lemma_row_flags_bound(st, y, (n - 1) as nat);
    }
}

proof fn lemma_flags_upto_bound(st: FieldState, k: nat)
    ensures
        st.flags_upto(k) <= k * st.width,
    decreases k,
{
    if k > 0 {
        lemma_flags_upto_bound(st, (k - 1) as nat);
        lemma_row_flags_bound(st, k - 1, st.width);
        assert(k * st.width == (k - 1) * st.width + st.width) by (nonlinear_arith);
    }
}

impl Field {
    /// Draw the whole field: column headers, the rows numbered on both sides,
    /// the column headers again, and the number of bombs and of flags.
    pub fn render(&self, palette: &Palette) -> (s: String)
        requires
            self.wf(),
            palette.wf(),
        ensures
            s@ == self@.field_text(*palette),
    {
        let ghost st = self@;
        let width = self.width();
        let height = self.height();
        proof {
            lemma_decimal_len_small(height as nat);
            reveal_strlit(" ");
            reveal_strlit("   ");
        }
        let space = digit_count(height);
        let mut top = String::new();
        push_spaces(&mut top, space + 1);
        let mut nums = String::new();
        push_spaces(&mut nums, space + 1);
        for x in 0..width
            invariant
                top@ == spaces((space + 1) as nat) + tens_cols(x as nat),
                nums@ == spaces((space + 1) as nat) + ones_cols(x as nat),
        {
            proof {
                reveal_strlit(" ");
                reveal_strlit("   ");
            }
            if x > 9 {
                top.append(" ");
                push_decimal(&mut top, x / 10);
                top.append(" ");
            } else {
                top.append("   ");
            }
            nums.append(" ");
            push_decimal(&mut nums, x % 10);
            nums.append(" ");
            assert(top@ =~= spaces((space + 1) as nat) + tens_cols((x + 1) as nat));
            assert(nums@ =~= spaces((space + 1) as nat) + ones_cols((x + 1) as nat));
        }
        proof {
            reveal_strlit("\n\r");
        }
        let mut out = String::new();
        if width > 10 {
            out.append(top.as_str());
            out.append("\n\r");
        }
        out.append(nums.as_str());
        out.append("\n\r");
        assert(out@ =~= st.tens_line() + st.ones_header() + line_end());
        let ghost head = out@;

        let mut cells: usize = 0;
        for y in 0..height
            invariant
                self.wf(),
                st == self@,
                width == st.width,
                height == st.height,
                space == st.margin(),
                space <= 4,
                out@ == head + st.rows_text(*palette, y as nat),
                cells == st.flags_upto(y as nat),
                palette.wf(),
        {
            proof {
                lemma_decimal_len_mono(y as nat, height as nat);
                lemma_flags_upto_bound(st, y as nat);
                reveal_strlit("\n\r");
            }
            let chars = digit_count(y);
            let mut line = String::new();
            push_decimal(&mut line, y);
            push_spaces(&mut line, space - chars + 1);
            let ghost before_cells = line@;
            let mut row_flags: usize = 0;

            for x in 0..width
                invariant
                    self.wf(),
                    st == self@,
                    width == st.width,
                    height == st.height,
                    y < height,
                    line@ == before_cells + st.row_cells(*palette, y as int, x as nat),
                    row_flags == st.row_flags(y as int, x as nat),
                    cells == st.flags_upto(y as nat),
                    cells <= y * width,
                    palette.wf(),
            {
                proof {
                    lemma_row_flags_bound(st, y as int, x as nat);
                    lemma_index_in_range(x as int, y as int, width as int, height as int);
                }
                let cell = self.get(x, y).unwrap();
                if let Cell::Flagged { is_bomb: _ } = cell {
                    row_flags += 1;
                }
                let text = cell.render(palette);
                line.append(text.as_str());
                assert(line@ =~= before_cells + st.row_cells(*palette, y as int, (x + 1) as nat));
            }

            proof {
                lemma_row_flags_bound(st, y as int, width as nat);
                lemma_index_in_range(0, y as int, width as int, height as int);
                assert((y + 1) * width == y * width + width) by (nonlinear_arith);
                assert((y + 1) * width <= 4096 * 4096) by (nonlinear_arith)
                    requires
                        y < height <= 4096,
                        width <= 4096,
                ;
            }
            cells = cells + row_flags;
            push_spaces(&mut line, space - chars + 1);
            push_decimal(&mut line, y);
            line.append("\n\r");
            out.append(line.as_str());
            assert(line@ =~= st.row_line(*palette, y as nat));
            assert(out@ =~= head + st.rows_text(*palette, (y + 1) as nat));
        }

        proof {
            reveal_strlit("\n\r");
            reveal_strlit("Bombs: ");
            reveal_strlit(", Flags: ");
        }
        if width > 10 {
            out.append(top.as_str());
            out.append("\n\r");
        }
        out.append(nums.as_str());
        out.append("\n\r");
        out.append("Bombs: ");
        push_decimal(&mut out, self.num_mines());
        out.append(", Flags: ");
        push_decimal(&mut out, cells);
        out.append("\n\r");
        assert(out@ =~= st.field_text(*palette));
        out
    }
}

/// The column headers up to column `n`, for at most 100 columns, are three characters
/// per column: the tens of column `x` (from 10 on) or blanks, and its units.
pub proof fn lemma_header_blocks(n: nat, x: nat)
    requires
        n <= 100,
        x < n,
    ensures
        tens_cols(n).len() == 3 * n,
        ones_cols(n).len() == 3 * n,
        tens_cols(n).subrange(3 * x as int, 3 * x as int + 3) == if x > 9 {
            seq![' ', ((48 + x / 10) as char), ' ']
        } else {
            seq![' ', ' ', ' ']
        },
        ones_cols(n).subrange(3 * x as int, 3 * x as int + 3) == seq![' ', ((48 + x % 10) as char), ' '],
    decreases n,
{
    let m = (n - 1) as nat;
    if m > 0 {
        lemma_header_blocks(m, if x < m { x } else { 0 });
    } else {
        assert(tens_cols(0).len() == 0);
        assert(ones_cols(0).len() == 0);
    }
    reveal_with_fuel(decimal, 2);
    assert(decimal(m % 10) == seq![((48 + m % 10) as char)]);
    if m > 9 {
        assert(decimal(m / 10) == seq![((48 + m / 10) as char)]);
    }
    assert(tens_cols(n).len() == 3 * n);
    assert(ones_cols(n).len() == 3 * n);
    if x < m {
        assert(tens_cols(n).subrange(3 * x as int, 3 * x as int + 3) =~= tens_cols(m).subrange(3 * x as int, 3 * x as int + 3));
        assert(ones_cols(n).subrange(3 * x as int, 3 * x as int + 3) =~= ones_cols(m).subrange(3 * x as int, 3 * x as int + 3));
    } else {
        assert(tens_cols(n).subrange(3 * x as int, 3 * x as int + 3) =~= if x > 9 {
            seq![' ', ((48 + x / 10) as char), ' ']
        } else {
            seq![' ', ' ', ' ']
        });
        assert(ones_cols(n).subrange(3 * x as int, 3 * x as int + 3) =~= seq![' ', ((48 + x % 10) as char), ' ']);
    }
}

} // verus!
