//! Keyboard control: which key does what.

use crate::game::MovementDirection;
use vstd::prelude::*;

verus! {

/// What a key asks for.
#[derive(Clone, Copy, PartialEq, Eq, Debug, Structural)]
pub enum Command {
    /// Head in this direction from now on.
    Steer(MovementDirection),
    /// Leave the game.
    Quit,
    /// Nothing: the key has no meaning.
    Ignore,
}

/// The key that steers left: `h`.
pub const KEY_LEFT: u8 = 0x68;

/// The key that steers down: `j`.
pub const KEY_DOWN: u8 = 0x6a;

/// The key that steers up: `k`.
pub const KEY_UP: u8 = 0x6b;

/// The key that steers right: `l`.
pub const KEY_RIGHT: u8 = 0x6c;

/// The key that ends the game: `q`.
pub const KEY_QUIT: u8 = 0x71;

/// The meaning of the key with ASCII code `key`: `h`, `j`, `k` and `l` steer
/// left, down, up and right, `q` quits, and every other key is ignored.
pub open spec fn key_command(key: u8) -> Command {
    if key == KEY_LEFT {
        Command::Steer(MovementDirection::Left)
    } else if key == KEY_DOWN {
        Command::Steer(MovementDirection::Down)
    } else if key == KEY_UP {
        Command::Steer(MovementDirection::Up)
    } else if key == KEY_RIGHT {
        Command::Steer(MovementDirection::Right)
    } else if key == KEY_QUIT {
        Command::Quit
    } else {
        Command::Ignore
    }
}

/// The direction of the next step after the key `key`, for a snake that was
/// heading in `current`; `None` where the game ends.
pub open spec fn steered(current: MovementDirection, key: u8) -> Option<MovementDirection> {
    match key_command(key) {
        Command::Steer(direction) => Some(direction),
        Command::Quit => None,
        Command::Ignore => Some(current),
    }
}

/// The meaning of the key with ASCII code `key`.
pub fn command_for_key(key: u8) -> (command: Command)
    ensures
        command == key_command(key),
{
    if key == KEY_RIGHT {
        Command::Steer(MovementDirection::Right)
    } else if key == KEY_LEFT {
        Command::Steer(MovementDirection::Left)
    } else if key == KEY_UP {
        Command::Steer(MovementDirection::Up)
    } else if key == KEY_DOWN {
        Command::Steer(MovementDirection::Down)
    } else if key == KEY_QUIT {
        Command::Quit
    } else {
        Command::Ignore
    }
}

/// The direction in which to step after the key `key` was read, or `None`
/// where the key ends the game. A key without meaning keeps the snake on its
/// course.
pub fn steer(current: MovementDirection, key: u8) -> (next: Option<MovementDirection>)
    ensures
        next == steered(current, key),
{
    match command_for_key(key) {
        Command::Steer(direction) => Some(direction),
        Command::Quit => None,
        Command::Ignore => Some(current),
    }
}

} // verus!
