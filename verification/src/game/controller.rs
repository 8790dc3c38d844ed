use vstd::prelude::*;

use crate::config::Mode;
use crate::field::{Field, FieldState};
use crate::game::view::GameOver;

verus! {

/// Represents the available actions that can be taken
#[derive(Debug, Clone, Copy, PartialEq, Eq, Structural)]
pub enum Action {
    /// Nothing to do (a cursor move, for instance).
    Idle,
    Quit,
    Uncover(u16, u16),
    SetFlag(u16, u16),
}

/// The game: its field, and the message of the last action.
pub struct GameController {
    info: String,
    field: Field,
}

/// The abstract state of a [`GameController`].
pub struct GameState {
    pub field: FieldState,
    pub info: Seq<char>,
}

impl View for GameController {
    type V = GameState;

    closed spec fn view(&self) -> GameState {
        GameState { field: self.field@, info: self.info@ }
    }
}

impl GameState {
    pub open spec fn wf(self) -> bool {
        self.field.playable()
    }

    /// Whether the action can be performed: uncovering a cell as the first click needs
    /// room for every bomb ([`FieldState::room_for_mines`]).
    pub open spec fn allows(self, action: Action) -> bool {
        action matches Action::Uncover(x, y) ==> self.field.room_for_mines(x as int, y as int)
    }

    /// `ret` and `post` are what performing `action` gives:
    /// - uncovering clicks the cell; a bomb reveals the whole field and loses the game,
    ///   a failed click leaves its message as the info, a safe one clears the info;
    /// - setting a flag toggles it, leaving the message of a failure as the info;
    /// - quitting reveals the whole field and ends the game;
    /// - doing nothing clears the info.
    pub open spec fn performed(self, action: Action, ret: Option<GameOver>, post: GameState) -> bool {
        match action {
            Action::Uncover(x, y) => exists|r: Result<bool, String>, clicked: FieldState|
                {
                    &&& self.field.clicked(x as int, y as int, r, clicked)
                    &&& match r {
                        Ok(safe) => if safe {
                            post.field == clicked && post.info == Seq::<char>::empty() && ret
                                is None
                        } else {
                            clicked.uncovered_all(post.field) && post.info == self.info && ret
                                == Some(GameOver::Lost)
                        },
                        Err(e) => post.field == clicked && post.info == e@ && ret is None,
                    }
                },
            Action::SetFlag(x, y) => exists|r: Result<(), String>|
                {
                    &&& self.field.flag_toggle(x as int, y as int, r, post.field)
                    &&& post.info == match r {
                        Ok(()) => Seq::<char>::empty(),
                        Err(e) => e@,
                    }
                    &&& ret is None
                },
            Action::Quit => self.field.uncovered_all(post.field) && post.info == self.info && ret
                == Some(GameOver::Quit),
            Action::Idle => post.field == self.field && post.info == Seq::<char>::empty() && ret
                is None,
        }
    }

    /// `ret` and `post` are what a step of the game gives: the action is performed, and
    /// when it does not end the game but leaves every cell without a bomb uncovered,
    /// the whole field is revealed and the game is won.
    pub open spec fn stepped(self, action: Action, ret: Option<GameOver>, post: GameState) -> bool {
        exists|mid: GameState, first: Option<GameOver>|
            {
                &&& self.performed(action, first, mid)
                &&& match first {
                    Some(g) => post == mid && ret == Some(g),
                    None => if mid.field.all_safe_uncovered() {
                        mid.field.uncovered_all(post.field) && post.info == mid.info && ret
                            == Some(GameOver::Won)
                    } else {
                        post == mid && ret is None
                    },
                }
            }
    }
}

/// The field's mode of a difficulty.
fn field_mode(mode: Mode) -> (m: crate::field::Mode)
    ensures
        m.width_of() == mode.width_of(),
        m.height_of() == mode.height_of(),
        m.bombs_of() == mode.bombs_of(),
{
    match mode {
        Mode::Easy => crate::field::Mode::EASY,
        Mode::Medium => crate::field::Mode::MEDIUM,
        Mode::Hard => crate::field::Mode::HARD,
    }
}

impl GameController {
    /// Create a new game controller for the given mode
    #[must_use]
    pub fn new(mode: Mode) -> (g: GameController)
        ensures
            g@.wf(),
            g@.info.len() == 0,
            g@.field.width == mode.width_of(),
            g@.field.height == mode.height_of(),
            g@.field.num_mines == mode.bombs_of(),
            !g@.field.initialized,
            forall|a: int, b: int|
                g@.field.in_bounds(a, b) ==> #[trigger] g@.field.at(a, b) == crate::field::Cell::Empty,
    {
        let field = Field::new(field_mode(mode));
        GameController { info: String::new(), field }
    }

    /// The message of the last action, empty if there is none.
    pub fn info(&self) -> (s: &str)
        ensures
            s@ == self@.info,
    {
        self.info.as_str()
    }

    /// The playing field.
    pub fn field(&self) -> (f: &Field)
        ensures
            f@ == self@.field,
    {
        &self.field
    }

    /// helper to perform an [Action]
    /// returns `Some` containing the reason when this action leads to a game over else `None`
    pub fn perform_action(&mut self, action: Action) -> (ret: Option<GameOver>)
        requires
            old(self)@.wf(),
            old(self)@.allows(action),
        ensures
            final(self)@.wf(),
            old(self)@.performed(action, ret, final(self)@),
    {
        match action {
            Action::Uncover(x, y) => {
                let ghost before = self@;
                let r = self.field.click(x as usize, y as usize);
                let ghost clicked = self.field@;
                match r {
                    Ok(false) => {
                        self.field.uncover();
                        assert(before.field.clicked(x as int, y as int, r, clicked));
                        return Some(GameOver::Lost);
                    },
                    Err(s) => {
                        self.info = s;
                        assert(before.field.clicked(x as int, y as int, Err(s), clicked));
                    },
                    _ => {
                        self.info = String::new();
                        assert(before.field.clicked(x as int, y as int, r, clicked));
                    },
                }
            },
            Action::SetFlag(x, y) => {
                let ghost before = self@;
                let r = self.field.toggle_flag(x as usize, y as usize);
                if let Err(s) = r {
                    self.info = s;
                    assert(before.field.flag_toggle(x as int, y as int, Err(s), self@.field));
                } else {
                    self.info = String::new();
                    assert(before.field.flag_toggle(x as int, y as int, r, self@.field));
                }
            },
            Action::Quit => {
                self.field.uncover();
                return Some(GameOver::Quit);
            },
            Action::Idle => {
                self.info = String::new();
            },
        }

        None
    }

    /// One step of the game: perform the action, and end the game as won once every cell
    /// without a bomb is uncovered, revealing the whole field.
    /// Returns `Some` with the reason when the game is over.
    pub fn step(&mut self, action: Action) -> (ret: Option<GameOver>)
        requires
            old(self)@.wf(),
            old(self)@.allows(action),
        ensures
            final(self)@.wf(),
            old(self)@.stepped(action, ret, final(self)@),
    {
        let ghost start = self@;
        if let Some(game_over) = self.perform_action(action) {
            assert(start.performed(action, Some(game_over), self@));
            return Some(game_over);
        }
        let ghost mid = self@;
        assert(start.performed(action, None, mid));
        if self.field.won() {
            self.field.uncover();
            return Some(GameOver::Won);
        }
        None
    }
}

} // verus!
