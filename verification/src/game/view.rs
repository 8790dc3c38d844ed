use vstd::prelude::*;

use crate::config::Mode;
use crate::game::controller::Action;
use crate::render::{decimal, digit_count, lemma_decimal_len_small, push_decimal};

verus! {

/// A position on the screen, in terminal columns and lines.
#[derive(Debug, Clone, Copy, PartialEq, Eq, Structural)]
pub struct Position {
    pub x: u16,
    pub y: u16,
}

/// Why the game ended.
#[derive(Debug, Clone, Copy, PartialEq, Eq, Structural)]
pub enum GameOver {
    Quit,
    Lost,
    Won,
}

impl GameOver {
    /// The message shown when the game ends this way.
    pub open spec fn message_of(self) -> Seq<char> {
        match self {
            GameOver::Quit => "You quit."@,
            GameOver::Won => "You won! Congratulations."@,
            GameOver::Lost => "You lost. Try again."@,
        }
    }

    /// The message shown when the game ends this way.
    pub fn message(&self) -> (s: String)
        ensures
            s@ == self.message_of(),
    {
        match self {
            GameOver::Quit => "You quit.".to_owned(),
            GameOver::Won => "You won! Congratulations.".to_owned(),
            GameOver::Lost => "You lost. Try again.".to_owned(),
        }
    }
}

/// A terminal event, as far as the game tells events apart.
#[derive(Debug, Clone, Copy, PartialEq, Eq, Structural)]
pub enum Input {
    /// The key `q`.
    Quit,
    /// The key `j` or the arrow down.
    Down,
    /// The key `k` or the arrow up.
    Up,
    /// The key `h` or the arrow left.
    Left,
    /// The key `l` or the arrow right.
    Right,
    /// A mouse button pressed at screen position `(x, y)`; `left` tells the left button.
    Press { left: bool, x: u16, y: u16 },
    /// Enter or the key `u`.
    Uncover,
    /// Backspace or the key `f`.
    Flag,
    /// Any other event.
    Other,
}

/// Screen columns per field column.
pub const COORD_WIDTH: u16 = 3;

/// Lines above the field.
pub const HEADER_LINES: u16 = 1;

/// The cursor of the field on the screen, and the note on the last action.
pub struct FieldView {
    cursor_pos: Position,
    max_cursor: Position,
    min_cursor: Position,
    infobuf: String,
}

/// The abstract state of a [`FieldView`].
pub struct FieldViewState {
    pub cursor: Position,
    pub min: Position,
    pub max: Position,
    pub note: Seq<char>,
}

impl View for FieldView {
    type V = FieldViewState;

    closed spec fn view(&self) -> FieldViewState {
        FieldViewState {
            cursor: self.cursor_pos,
            min: self.min_cursor,
            max: self.max_cursor,
            note: self.infobuf@,
        }
    }
}

/// `v` clamped into `[lo, hi]`.
pub open spec fn clamped(v: int, lo: int, hi: int) -> int {
    if v < lo {
        lo
    } else if v > hi {
        hi
    } else {
        v
    }
}

/// The note after uncovering field cell `(x, y)`.
pub open spec fn uncover_note(x: nat, y: nat) -> Seq<char> {
    "Uncovered ("@ + decimal(x) + ", "@ + decimal(y) + "). No Bomb!"@
}

/// The note after setting a flag at field cell `(x, y)`.
pub open spec fn flag_note(x: nat, y: nat) -> Seq<char> {
    "Flag set at ("@ + decimal(x) + ", "@ + decimal(y) + ")."@
}

/// The note showing field cell `(x, y)` under the cursor.
pub open spec fn coords_note(x: nat, y: nat) -> Seq<char> {
    "("@ + decimal(x) + ","@ + decimal(y) + ")"@
}

impl FieldViewState {
    /// The cursor stays on a field cell, which lie `COORD_WIDTH` columns apart.
    pub open spec fn wf(self) -> bool {
        &&& 3 <= self.min.x <= self.cursor.x <= self.max.x <= 60000
        &&& 1 <= self.min.y <= self.cursor.y <= self.max.y <= 60000
        &&& (self.cursor.x - self.min.x) % 3 == 0
        &&& (self.max.x - self.min.x) % 3 == 0
    }

    /// The field cell under the cursor.
    pub open spec fn coords(self) -> (nat, nat) {
        (((self.cursor.x - self.min.x) / 3) as nat, (self.cursor.y - self.min.y) as nat)
    }

    /// This state with the cursor at screen position `(x, y)`, no note.
    pub open spec fn moved(self, x: int, y: int) -> FieldViewState {
        FieldViewState {
            cursor: Position { x: x as u16, y: y as u16 },
            note: Seq::empty(),
            ..self
        }
    }

    /// The cursor after a mouse press at screen position `(x, y)`: clamped into the field
    /// and moved left onto the cell the position lies in.
    pub open spec fn pressed_at(self, x: int, y: int) -> FieldViewState {
        let cx = clamped(x, self.min.x as int, self.max.x as int);
        self.moved(cx - (cx - self.min.x) % 3, clamped(y, self.min.y as int, self.max.y as int))
    }

    /// `post` and `a` are what answering `input` gives: the arrows move the cursor one cell
    /// without leaving the field, a mouse press moves it to the pressed cell, and the action
    /// keys and buttons name the cell under the cursor, with a note on it; any other event
    /// is no action. Every event first clears the note.
    pub open spec fn answer(self, input: Input, post: FieldViewState, a: Option<Action>) -> bool {
        match input {
            Input::Quit => post == self.moved(self.cursor.x as int, self.cursor.y as int) && a
                == Some(Action::Quit),
            Input::Down => post == self.moved(
                self.cursor.x as int,
                if self.cursor.y + 1 <= self.max.y {
                    self.cursor.y + 1
                } else {
                    self.max.y as int
                },
            ) && a == Some(Action::Idle),
            Input::Up => post == self.moved(
                self.cursor.x as int,
                if self.cursor.y - 1 >= self.min.y {
                    self.cursor.y - 1
                } else {
                    self.min.y as int
                },
            ) && a == Some(Action::Idle),
            Input::Left => post == self.moved(
                if self.cursor.x - 3 >= self.min.x {
                    self.cursor.x - 3
                } else {
                    self.min.x as int
                },
                self.cursor.y as int,
            ) && a == Some(Action::Idle),
            Input::Right => post == self.moved(
                if self.cursor.x + 3 <= self.max.x {
                    self.cursor.x + 3
                } else {
                    self.max.x as int
                },
                self.cursor.y as int,
            ) && a == Some(Action::Idle),
            Input::Press { left, x, y } => {
                let p = self.pressed_at(x as int, y as int);
                let (fx, fy) = p.coords();
                &&& post.cursor == p.cursor
                &&& post.min == self.min
                &&& post.max == self.max
                &&& if left {
                    post.note == uncover_note(fx, fy) && a == Some(Action::Uncover(fx as u16, fy as u16))
                } else {
                    post.note == flag_note(fx, fy) && a == Some(Action::SetFlag(fx as u16, fy as u16))
                }
            },
            Input::Uncover => {
                let (fx, fy) = self.coords();
                &&& post == FieldViewState { note: uncover_note(fx, fy), ..self }
                &&& a == Some(Action::Uncover(fx as u16, fy as u16))
            },
            Input::Flag => {
                let (fx, fy) = self.coords();
                &&& post == FieldViewState { note: flag_note(fx, fy), ..self }
                &&& a == Some(Action::SetFlag(fx as u16, fy as u16))
            },
            Input::Other => post == self.moved(self.cursor.x as int, self.cursor.y as int) && a
                is None,
        }
    }
}

impl FieldView {
    /// The cursor for a field of the given mode, on its top left cell.
    pub fn new(mode: Mode) -> (v: FieldView)
        ensures
            v@.wf(),
            v@.min == v@.cursor,
            v@.min.x == decimal(mode.width_of()).len() + HEADER_LINES + 2,
            v@.min.y == decimal(mode.height_of()).len() + 2,
            v@.max.x == (mode.width_of() - 1) * COORD_WIDTH + v@.min.x,
            v@.max.y == (mode.height_of() - 1) + v@.min.y,
            v@.note.len() == 0,
    {
        proof {
            lemma_decimal_len_small(mode.width_of());
            lemma_decimal_len_small(mode.height_of());
        }
        let coords_width = digit_count(mode.x_size()) as u16;
        let coords_height = digit_count(mode.y_size()) as u16;

        let cursor_pos = Position { x: coords_width + HEADER_LINES + 2, y: coords_height + 2 };

        let min_cursor = cursor_pos;

        // maximum allowed x/y value in screen space
        let max_cursor = Position {
            x: ((mode.x_size() as u16) - 1) * COORD_WIDTH + cursor_pos.x,
            y: ((mode.y_size() as u16) - 1) + cursor_pos.y,
        };

        FieldView { cursor_pos, max_cursor, min_cursor, infobuf: String::new() }
    }

    /// The screen position of the cursor.
    pub fn cursor(&self) -> (p: Position)
        ensures
            p == self@.cursor,
    {
        self.cursor_pos
    }

    /// The field cell under the cursor.
    fn get_field_coords(&self) -> (c: (u16, u16))
        requires
            self@.wf(),
        ensures
            c.0 == self@.coords().0,
            c.1 == self@.coords().1,
    {
        let x = (self.cursor_pos.x - self.min_cursor.x) / COORD_WIDTH;
        let y = self.cursor_pos.y - self.min_cursor.y;

        (x, y)
    }

    /// Write the note on uncovering or flagging field cell `(x, y)`.
    fn note_action(&mut self, uncover: bool, x: u16, y: u16)
        ensures
            final(self)@ == (FieldViewState {
                note: if uncover {
                    uncover_note(x as nat, y as nat)
                } else {
                    flag_note(x as nat, y as nat)
                },
                ..old(self)@
            }),
    {
        let mut s = if uncover {
            "Uncovered (".to_owned()
        } else {
            "Flag set at (".to_owned()
        };
        push_decimal(&mut s, x as usize);
        s.append(", ");
        push_decimal(&mut s, y as usize);
        if uncover {
            s.append("). No Bomb!");
        } else {
            s.append(").");
        }
        self.infobuf = s;
    }

    /// Answer one terminal event: move the cursor, or name the action it asks for.
    /// Returns `None` for events that ask for nothing.
    pub fn handle_input(&mut self, input: Input) -> (a: Option<Action>)
        requires
            old(self)@.wf(),
        ensures
            final(self)@.wf(),
            old(self)@.answer(input, final(self)@, a),
    {
        self.infobuf = String::new();
        match input {
            Input::Quit => Some(Action::Quit),
            Input::Down => {
                self.cursor_pos.y = self.cursor_pos.y + 1;
                if self.cursor_pos.y > self.max_cursor.y {
                    self.cursor_pos.y = self.max_cursor.y;
                }
                Some(Action::Idle)
            },
            Input::Up => {
                self.cursor_pos.y = self.cursor_pos.y - 1;
                if self.cursor_pos.y < self.min_cursor.y {
                    self.cursor_pos.y = self.min_cursor.y;
                }
                Some(Action::Idle)
            },
            Input::Left => {
                self.cursor_pos.x = self.cursor_pos.x - COORD_WIDTH;
                if self.cursor_pos.x < self.min_cursor.x {
                    self.cursor_pos.x = self.min_cursor.x;
                }
                Some(Action::Idle)
            },
            Input::Right => {
                self.cursor_pos.x = self.cursor_pos.x + COORD_WIDTH;
                if self.cursor_pos.x > self.max_cursor.x {
                    self.cursor_pos.x = self.max_cursor.x;
                }
                Some(Action::Idle)
            },
            Input::Press { left, x: nx, y: ny } => {
                self.cursor_pos.y = if ny < self.min_cursor.y {
                    self.min_cursor.y
                } else if ny > self.max_cursor.y {
                    self.max_cursor.y
                } else {
                    ny
                };

                self.cursor_pos.x = if nx < self.min_cursor.x {
                    self.min_cursor.x
                } else if nx > self.max_cursor.x {
                    self.max_cursor.x
                } else {
                    nx
                };
                self.cursor_pos.x = self.cursor_pos.x - (self.cursor_pos.x - self.min_cursor.x)
                    % COORD_WIDTH;

                let (x, y) = self.get_field_coords();

                if left {
                    self.note_action(true, x, y);
                    Some(Action::Uncover(x, y))
                } else {
                    self.note_action(false, x, y);
                    Some(Action::SetFlag(x, y))
                }
            },
            Input::Uncover => {
                let (x, y) = self.get_field_coords();
                self.note_action(true, x, y);
                Some(Action::Uncover(x, y))
            },
            Input::Flag => {
                let (x, y) = self.get_field_coords();
                self.note_action(false, x, y);
                Some(Action::SetFlag(x, y))
            },
            Input::Other => None,
        }
    }

    /// The text of the info line: the given message if there is one, else the note on
    /// the last action, else (written down as the note) the field cell under the cursor.
    pub fn info_line(&mut self, info: &str) -> (s: String)
        requires
            old(self)@.wf(),
        ensures
            final(self)@.wf(),
            if info@.len() == 0 {
                &&& final(self)@ == (FieldViewState {
                    note: if old(self)@.note.len() == 0 {
                        coords_note(old(self)@.coords().0, old(self)@.coords().1)
                    } else {
                        old(self)@.note
                    },
                    ..old(self)@
                })
                &&& s@ == final(self)@.note
            } else {
                final(self)@ == old(self)@ && s@ == info@
            },
    {
        if info.is_empty() {
            if self.infobuf.as_str().is_empty() {
                let (x, y) = self.get_field_coords();
                let mut s = "(".to_owned();
                push_decimal(&mut s, x as usize);
                s.append(",");
                push_decimal(&mut s, y as usize);
                s.append(")");
                self.infobuf = s;
            }
            self.infobuf.clone()
        } else {
            info.to_owned()
        }
    }
}

} // verus!
