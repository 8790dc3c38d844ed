use vstd::prelude::*;

verus! {

/// Type representing Game Mode.
/// Values correspond to different field sizes and bomb counts.
#[derive(Debug, Clone, Copy, PartialEq, Eq)]
pub enum Mode {
    Easy,
    Medium,
    Hard,
}

impl Mode {
    /// Width of the field in this mode.
    pub open spec fn width_of(self) -> nat {
        match self {
            Mode::Easy => 9,
            Mode::Medium => 16,
            Mode::Hard => 24,
        }
    }

    /// Height of the field in this mode.
    pub open spec fn height_of(self) -> nat {
        self.width_of()
    }

    /// Number of bombs hidden in the field in this mode.
    pub open spec fn bombs_of(self) -> nat {
        match self {
            Mode::Easy => 10,
            Mode::Medium => 40,
            Mode::Hard => 99,
        }
    }

    /// The name under which the mode is shown and selected.
    pub open spec fn name_of(self) -> Seq<char> {
        match self {
            Mode::Easy => seq!['e', 'a', 's', 'y'],
            Mode::Medium => seq!['m', 'e', 'd', 'i', 'u', 'm'],
            Mode::Hard => seq!['h', 'a', 'r', 'd'],
        }
    }

    #[must_use]
    pub fn x_size(&self) -> (n: usize)
        ensures
            n == self.width_of(),
    {
        match self {
            Mode::Easy => 9,
            Mode::Medium => 16,
            Mode::Hard => 24,
        }
    }

    #[must_use]
    pub fn y_size(&self) -> (n: usize)
        ensures
            n == self.height_of(),
    {
        match self {
            Mode::Easy => 9,
            Mode::Medium => 16,
            Mode::Hard => 24,
        }
    }

    #[must_use]
    pub fn bombs(&self) -> (n: usize)
        ensures
            n == self.bombs_of(),
    {
        match self {
            Mode::Easy => 10,
            Mode::Medium => 40,
            Mode::Hard => 99,
        }
    }

    /// The mode's name, as the command line takes and shows it.
    pub fn name(&self) -> (s: String)
        ensures
            s@ == self.name_of(),
    {
        proof {
            reveal_strlit("easy");
            reveal_strlit("medium");
            reveal_strlit("hard");
        }
        match self {
            Mode::Easy => "easy".to_owned(),
            Mode::Medium => "medium".to_owned(),
            Mode::Hard => "hard".to_owned(),
        }
    }
}

/// The command line arguments of the game.
pub struct Args {
    /// Controls the size of the field and the number of bombs
    pub difficulty: Mode,
}

} // verus!
