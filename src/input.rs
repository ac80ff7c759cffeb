use crate::game::Command;
use vstd::prelude::*;

verus! {

/// A decoded key press, as far as the game cares.
#[derive(Clone, Copy, Debug, PartialEq, Eq, Structural)]
pub enum KeyPress {
    /// A plain character key.
    Char(char),
    /// A character typed with Ctrl held.
    Ctrl(char),
    Left,
    Right,
    Up,
    Down,
    /// Any other key.
    Other,
}

/// The command a key stands for: `q` and Ctrl-C quit, `j` and Down move
/// down, `h` and Left move left, `l` and Right move right; every other key
/// is ignored.
pub open spec fn command_spec(key: KeyPress) -> Option<Command> {
    match key {
        KeyPress::Char('q') | KeyPress::Ctrl('c') => Some(Command::Quit),
        KeyPress::Char('j') | KeyPress::Down => Some(Command::MoveDown),
        KeyPress::Char('h') | KeyPress::Left => Some(Command::MoveLeft),
        KeyPress::Char('l') | KeyPress::Right => Some(Command::MoveRight),
        _ => None,
    }
}

/// Decodes a key press into a command, `None` for keys the game ignores.
pub fn command_of(key: KeyPress) -> (r: Option<Command>)
    ensures
        r == command_spec(key),
{
    match key {
        KeyPress::Char('q') | KeyPress::Ctrl('c') => Some(Command::Quit),
        KeyPress::Char('j') | KeyPress::Down => Some(Command::MoveDown),
        KeyPress::Char('h') | KeyPress::Left => Some(Command::MoveLeft),
        KeyPress::Char('l') | KeyPress::Right => Some(Command::MoveRight),
        _ => None,
    }
}

} // verus!
